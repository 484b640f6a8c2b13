use vstd::prelude::*;

use std::collections::VecDeque;

use crate::frame::{Body, Frame, FrameModel};

verus! {

/// The abstract state of the outgoing stream frames: one FIFO per stream
/// with frames waiting, in the order the streams first had one, and the
/// position of the queue served last.
pub struct QueueModel {
    pub ids: Seq<u32>,
    pub queues: Seq<Seq<FrameModel>>,
    pub cursor: nat,
}

impl QueueModel {
    pub open spec fn wf(self) -> bool {
        &&& self.ids.len() == self.queues.len()
        &&& forall|i: int| 0 <= i < self.queues.len() ==> (#[trigger] self.queues[i]).len() > 0
        &&& forall|i: int, j: int|
            0 <= i < self.ids.len() && 0 <= j < self.ids.len() && i != j ==> (#[trigger] self.ids[i])
                != (#[trigger] self.ids[j])
        &&& self.queues.len() > 0 ==> self.cursor < self.queues.len()
        &&& self.queues.len() == 0 ==> self.cursor == 0
        &&& forall|i: int| 0 <= i < self.queues.len() ==> tagged(#[trigger] self.queues[i], self.ids[i])
    }

    /// The queue served next: the one after the last served, wrapping round.
    pub open spec fn next(self) -> int {
        if self.cursor + 1 < self.queues.len() {
            (self.cursor + 1) as int
        } else {
            0
        }
    }
}

/// Every frame of a queue belongs to the queue's stream.
pub open spec fn tagged(q: Seq<FrameModel>, id: u32) -> bool {
    forall|k: int| 0 <= k < q.len() ==> (#[trigger] q[k]).stream_id == id
}

/// Queuing a frame: at the back of its stream's queue, or in a new queue
/// after all others.
pub open spec fn push_spec(m: QueueModel, f: FrameModel) -> QueueModel {
    if exists|i: int| 0 <= i < m.ids.len() && m.ids[i] == f.stream_id {
        let i = choose|i: int| 0 <= i < m.ids.len() && m.ids[i] == f.stream_id;
        QueueModel { queues: m.queues.update(i, m.queues[i].push(f)), ..m }
    } else {
        QueueModel { ids: m.ids.push(f.stream_id), queues: m.queues.push(seq![f]), ..m }
    }
}

/// Taking the next frame: the front of the queue after the one served
/// last. A queue left empty goes, and the queue after it is served next.
pub open spec fn pop_spec(m: QueueModel) -> (QueueModel, Option<FrameModel>) {
    if m.queues.len() == 0 {
        (m, None)
    } else {
        let k = m.next();
        let q = m.queues[k];
        if q.len() == 1 {
            let n = (m.queues.len() - 1) as nat;
            (
                QueueModel {
                    ids: m.ids.remove(k),
                    queues: m.queues.remove(k),
                    cursor: if n == 0 {
                        0
                    } else if k == 0 {
                        (n - 1) as nat
                    } else {
                        (k - 1) as nat
                    },
                },
                Some(q[0]),
            )
        } else {
            (
                QueueModel { queues: m.queues.update(k, q.skip(1)), cursor: k as nat, ..m },
                Some(q[0]),
            )
        }
    }
}

pub open spec fn queue_view(q: VecDeque<Frame>) -> Seq<FrameModel> {
    q@.map_values(|f: Frame| f@)
}

/// Stream frames waiting to go out, served round-robin over the streams so
/// that no stream's backlog holds back another's.
pub struct SendQueue {
    ids: Vec<u32>,
    queues: Vec<VecDeque<Frame>>,
    cursor: usize,
}

impl View for SendQueue {
    type V = QueueModel;

    closed spec fn view(&self) -> QueueModel {
        QueueModel {
            ids: self.ids@,
            queues: self.queues@.map_values(|q: VecDeque<Frame>| queue_view(q)),
            cursor: self.cursor as nat,
        }
    }
}

impl SendQueue {
    pub fn new() -> (r: SendQueue)
        ensures
            r@.wf(),
            r@.queues.len() == 0,
    {
        let r = SendQueue { ids: Vec::new(), queues: Vec::new(), cursor: 0 };
        assert(r@.queues =~= Seq::<Seq<FrameModel>>::empty());
        r
    }

    /// Whether no frame is waiting.
    pub fn is_empty(&self) -> (r: bool)
        requires
            self@.wf(),
        ensures
            r == (self@.queues.len() == 0),
    {
        self.queues.len() == 0
    }

    /// Queues a frame behind the others of its stream.
    pub fn push(&mut self, f: Frame)
        requires
            old(self)@.wf(),
        ensures
            final(self)@.wf(),
            final(self)@ == push_spec(old(self)@, f@),
    {
        let ghost m = self@;
        let ghost fv = f@;
        let mut i: usize = 0;
        while i < self.ids.len()
            invariant
                self@ == m,
                m == old(self)@,
                fv == f@,
                m.wf(),
                i <= m.ids.len(),
                self.ids@ == m.ids,
                self.queues@.len() == m.queues.len(),
                forall|j: int| 0 <= j < i ==> m.ids[j] != fv.stream_id,
            decreases m.ids.len() - i,
        {
            if self.ids[i] == f.stream_id {
                assert(self.ids@[i as int] == f.stream_id);
                assert(m.ids[i as int] == fv.stream_id);
                assert(m.queues[i as int] == queue_view(self.queues@[i as int]));
                let ghost ch = choose|j: int| 0 <= j < m.ids.len() && m.ids[j] == fv.stream_id;
                assert(ch == i);
                let ghost before = self.queues@;
                self.queues[i].push_back(f);
                proof {
                    assert(queue_view(self.queues@[i as int]) =~= m.queues[i as int].push(fv));
                    assert(self@.queues =~= m.queues.update(i as int, m.queues[i as int].push(fv)));
                    assert forall|a: int| 0 <= a < self@.queues.len() implies (#[trigger] self@.queues[a]).len() > 0 by {}
                    assert(tagged(m.queues[i as int].push(fv), m.ids[i as int])) by {
                        let q0 = m.queues[i as int];
                        assert(tagged(q0, m.ids[i as int]));
                        assert forall|k: int| 0 <= k < q0.len() + 1 implies (#[trigger] q0.push(fv)[k]).stream_id
                            == m.ids[i as int] by {
                            if k < q0.len() {
                                assert(q0.push(fv)[k] == q0[k]);
                            }
                        }
                    }
                    assert forall|a: int| 0 <= a < self@.queues.len() implies tagged(#[trigger] self@.queues[a], self@.ids[a]) by {}
                    assert(self@.ids == m.ids);
                    assert(self@.cursor == m.cursor);
                    assert(push_spec(m, fv) == (QueueModel {
                        queues: m.queues.update(i as int, m.queues[i as int].push(fv)),
                        ..m
                    }));
                }
                return;
            }
            i = i + 1;
        }
        let id = f.stream_id;
        let mut q: VecDeque<Frame> = VecDeque::new();
        q.push_back(f);
        self.ids.push(id);
        self.queues.push(q);
        proof {
            assert(!(exists|j: int| 0 <= j < m.ids.len() && m.ids[j] == fv.stream_id));
            assert(self@.ids =~= m.ids.push(fv.stream_id));
            assert(queue_view(q) =~= seq![fv]);
            assert(self@.queues =~= m.queues.push(seq![fv]));
            assert(tagged(seq![fv], id));
            assert forall|a: int, b: int|
                0 <= a < self@.ids.len() && 0 <= b < self@.ids.len() && a != b implies (#[trigger] self@.ids[a])
                    != (#[trigger] self@.ids[b]) by {
                if a < m.ids.len() && b < m.ids.len() {
                    assert(self@.ids[a] == m.ids[a] && self@.ids[b] == m.ids[b]);
                } else if a < m.ids.len() {
                    assert(self@.ids[a] == m.ids[a]);
                } else if b < m.ids.len() {
                    assert(self@.ids[b] == m.ids[b]);
                }
            }
            assert forall|a: int| 0 <= a < self@.queues.len() implies tagged(#[trigger] self@.queues[a], self@.ids[a]) by {
                if a < m.queues.len() {
                    assert(self@.queues[a] == m.queues[a]);
                }
            }
        }
    }

    /// Takes the next frame to send, round-robin over the streams.
    pub fn pop(&mut self) -> (r: Option<Frame>)
        requires
            old(self)@.wf(),
        ensures
            final(self)@.wf(),
            final(self)@ == pop_spec(old(self)@).0,
            match r {
                Some(f) => pop_spec(old(self)@).1 == Some(f@),
                None => pop_spec(old(self)@).1.is_none(),
            },
    {
        let ghost m = self@;
        let len = self.queues.len();
        if len == 0 {
            return None;
        }
        let k: usize = if self.cursor + 1 < len {
            self.cursor + 1
        } else {
            0
        };
        assert(m.queues[k as int] == queue_view(self.queues@[k as int]));
        let ghost q = m.queues[k as int];
        let front = self.queues[k].pop_front();
        let f = match front {
            Some(f) => f,
            None => {
                return None;
            },
        };
        assert(f@ == q[0]);
        if self.queues[k].len() == 0 {
            let _ = self.queues.remove(k);
            let _ = self.ids.remove(k);
            let n = len - 1;
            self.cursor = if n == 0 {
                0
            } else if k == 0 {
                n - 1
            } else {
                k - 1
            };
            proof {
                assert(q.len() == 1);
                assert(self@.queues =~= m.queues.remove(k as int));
                assert forall|a: int| 0 <= a < self@.queues.len() implies (#[trigger] self@.queues[a]).len() > 0 by {
                    assert(self@.queues[a] == m.queues[if a < k { a } else { a + 1 }]);
                }
                assert forall|a: int| 0 <= a < self@.queues.len() implies tagged(#[trigger] self@.queues[a], self@.ids[a]) by {
                    assert(self@.queues[a] == m.queues[if a < k { a } else { a + 1 }]);
                    assert(self@.ids[a] == m.ids[if a < k { a } else { a + 1 }]);
                }
                assert forall|a: int, b: int|
                    0 <= a < self@.ids.len() && 0 <= b < self@.ids.len() && a != b implies (#[trigger] self@.ids[a])
                        != (#[trigger] self@.ids[b]) by {
                    assert(self@.ids[a] == m.ids[if a < k { a } else { a + 1 }]);
                    assert(self@.ids[b] == m.ids[if b < k { b } else { b + 1 }]);
                }
            }
        } else {
            self.cursor = k;
            proof {
                assert(queue_view(self.queues@[k as int]) =~= q.skip(1));
                assert(self@.queues =~= m.queues.update(k as int, q.skip(1)));
                assert(tagged(q.skip(1), m.ids[k as int])) by {
                    assert(tagged(q, m.ids[k as int]));
                    assert forall|j: int| 0 <= j < q.skip(1).len() implies (#[trigger] q.skip(1)[j]).stream_id
                        == m.ids[k as int] by {
                        assert(q.skip(1)[j] == q[j + 1]);
                    }
                }
                assert forall|a: int| 0 <= a < self@.queues.len() implies tagged(#[trigger] self@.queues[a], self@.ids[a]) by {}
            }
        }
        Some(f)
    }
}

/// The frames of one stream waiting to go out, in order.
pub open spec fn pending_of(m: QueueModel, id: u32) -> Seq<FrameModel> {
    if exists|i: int| 0 <= i < m.ids.len() && m.ids[i] == id {
        m.queues[choose|i: int| 0 <= i < m.ids.len() && m.ids[i] == id]
    } else {
        Seq::empty()
    }
}

proof fn lemma_pending_at(m: QueueModel, i: int)
    requires
        m.wf(),
        0 <= i < m.ids.len(),
    ensures
        pending_of(m, m.ids[i]) == m.queues[i],
{
    let id = m.ids[i];
    assert(0 <= i < m.ids.len() && m.ids[i] == id);
    assert(exists|j: int| 0 <= j < m.ids.len() && #[trigger] m.ids[j] == id);
    let c = choose|j: int| 0 <= j < m.ids.len() && m.ids[j] == id;
    assert(c == i);
}

proof fn lemma_pending_absent(m: QueueModel, id: u32)
    requires
        forall|j: int| 0 <= j < m.ids.len() ==> m.ids[j] != id,
    ensures
        pending_of(m, id) == Seq::<FrameModel>::empty(),
{
}

/// Each stream's frames leave in the order they were queued, whatever the
/// other streams do: queuing a frame puts it behind its stream's others
/// and touches no other stream; taking a frame takes the front of its
/// stream's frames and touches no other stream.
pub proof fn lemma_fifo_per_stream(m: QueueModel, f: FrameModel, id: u32)
    requires
        m.wf(),
    ensures
        pending_of(push_spec(m, f), id) == (if id == f.stream_id {
            pending_of(m, id).push(f)
        } else {
            pending_of(m, id)
        }),
        match pop_spec(m) {
            (m2, Some(g)) => {
                &&& pending_of(m, g.stream_id).len() > 0
                &&& pending_of(m, g.stream_id)[0] == g
                &&& pending_of(m2, id) == (if id == g.stream_id {
                    pending_of(m, id).skip(1)
                } else {
                    pending_of(m, id)
                })
            },
            (_, None) => true,
        },
{
    // Queuing.
    let p = push_spec(m, f);
    if exists|i: int| 0 <= i < m.ids.len() && m.ids[i] == f.stream_id {
        let i = choose|i: int| 0 <= i < m.ids.len() && m.ids[i] == f.stream_id;
        assert(p.ids == m.ids);
        if exists|j: int| 0 <= j < m.ids.len() && m.ids[j] == id {
            let j = choose|j: int| 0 <= j < m.ids.len() && m.ids[j] == id;
            lemma_pending_at(m, j);
            assert(pending_of(p, id) == p.queues[j]);
        } else {
            lemma_pending_absent(p, id);
        }
    } else {
        if exists|j: int| 0 <= j < m.ids.len() && m.ids[j] == id {
            let j = choose|j: int| 0 <= j < m.ids.len() && m.ids[j] == id;
            lemma_pending_at(m, j);
            assert(p.ids[j] == id);
            assert(pending_of(p, id) == p.queues[j]) by {
                assert forall|a: int| 0 <= a < p.ids.len() && p.ids[a] == id implies a == j by {
                    if a == m.ids.len() {
                        assert(p.ids[a] == f.stream_id);
                    }
                }
            }
        } else if id == f.stream_id {
            let n = m.ids.len() as int;
            assert(p.ids[n] == id);
            assert(pending_of(p, id) == p.queues[n]) by {
                assert forall|a: int| 0 <= a < p.ids.len() && p.ids[a] == id implies a == n by {
                    if a < n {
                        assert(p.ids[a] == m.ids[a]);
                    }
                }
            }
            assert(Seq::<FrameModel>::empty().push(f) =~= seq![f]);
        } else {
            assert forall|a: int| 0 <= a < p.ids.len() implies p.ids[a] != id by {
                if a < m.ids.len() {
                    assert(p.ids[a] == m.ids[a]);
                }
            }
            lemma_pending_absent(p, id);
        }
    }
    // Taking.
    if m.queues.len() > 0 {
        let k = m.next();
        let q = m.queues[k];
        let g = q[0];
        let m2 = pop_spec(m).0;
        assert(tagged(q, m.ids[k]));
        assert(g.stream_id == m.ids[k]);
        lemma_pending_at(m, k);
        if exists|j: int| 0 <= j < m.ids.len() && m.ids[j] == id {
            let j = choose|j: int| 0 <= j < m.ids.len() && m.ids[j] == id;
            lemma_pending_at(m, j);
            if q.len() == 1 {
                if j == k {
                    assert forall|a: int| 0 <= a < m2.ids.len() implies m2.ids[a] != id by {
                        assert(m2.ids[a] == m.ids[if a < k { a } else { a + 1 }]);
                    }
                    lemma_pending_absent(m2, id);
                    assert(q.skip(1) =~= Seq::<FrameModel>::empty());
                } else {
                    let j2 = if j < k { j } else { j - 1 };
                    assert(m2.ids[j2] == id);
                    assert(m2.queues[j2] == m.queues[j]);
                    lemma_pending_at(m2, j2);
                }
            } else {
                assert(m2.ids == m.ids);
                lemma_pending_at(m2, j);
            }
        } else {
            if q.len() == 1 {
                assert forall|a: int| 0 <= a < m2.ids.len() implies m2.ids[a] != id by {
                    assert(m2.ids[a] == m.ids[if a < k { a } else { a + 1 }]);
                }
            }
            lemma_pending_absent(m2, id);
        }
    }
}

/// What the writer does next.
#[derive(Debug)]
pub enum WriterAction {
    /// Put this frame on the wire.
    Send(Frame),
    /// Nothing to send: wait for a frame or an open request.
    Wait,
    /// The session went away and nothing is left to send: stop.
    Stop,
}

/// The writer's choice: a system frame (RST, WND_INC, GOAWAY) first, then
/// stream frames round-robin; with neither, stop once the session went
/// away, else wait.
pub fn writer_step(system: Option<Frame>, queue: &mut SendQueue, closed: bool) -> (r: WriterAction)
    requires
        old(queue)@.wf(),
    ensures
        final(queue)@.wf(),
        match system {
            Some(f) => final(queue)@ == old(queue)@ && r is Send && r->Send_0 == f,
            None => {
                &&& final(queue)@ == pop_spec(old(queue)@).0
                &&& match pop_spec(old(queue)@).1 {
                    Some(g) => r is Send && r->Send_0@ == g,
                    None => if closed {
                        r is Stop
                    } else {
                        r is Wait
                    },
                }
            },
        },
{
    match system {
        Some(f) => WriterAction::Send(f),
        None => match queue.pop() {
            Some(f) => WriterAction::Send(f),
            None => if closed {
                WriterAction::Stop
            } else {
                WriterAction::Wait
            },
        },
    }
}

/// Whether the writer stops after sending `f`: a GOAWAY is the last frame
/// of a session.
pub fn ends_session(f: &Frame) -> (r: bool)
    ensures
        r == (f@.body is GoAway),
{
    match &f.body {
        Body::GoAway(_, _) => true,
        _ => false,
    }
}

} // verus!

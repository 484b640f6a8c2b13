use vstd::prelude::*;

use std::sync::atomic::{AtomicU64, Ordering};
use std::sync::Arc;

use crate::error::ErrorCode;
use crate::frame::{be_u32, lemma_u32_round_trip, push_u32_be, read_u32_be, u32_be};
use crate::typed::HEARTBEAT_TYPE;

verus! {

/// Nanoseconds in a second.
pub const NANOS_PER_SEC: u64 = 1_000_000_000;

/// Wraps a typed session: the heartbeat stream type is kept away from the
/// session's users.
pub struct Heartbeat<S> {
    /// The reserved stream type.
    pub typ: u32,
    /// The wrapped session, or one half of it.
    pub inner: S,
}

impl<S> Heartbeat<S> {
    /// Wraps `inner`, reserving the heartbeat stream type.
    pub fn new(inner: S) -> (r: Heartbeat<S>)
        ensures
            r.typ == HEARTBEAT_TYPE,
            r.inner == inner,
    {
        Heartbeat { typ: HEARTBEAT_TYPE, inner }
    }

    /// The same wrapper around another part of the session (an open or an
    /// accept half).
    pub fn rewrap<T>(&self, inner: T) -> (r: Heartbeat<T>)
        ensures
            r.typ == self.typ,
            r.inner == inner,
    {
        Heartbeat { typ: self.typ, inner }
    }

    /// Whether users may open a stream of type `typ`: not of the reserved
    /// one, which is refused with STREAM_REFUSED.
    pub fn check_open(&self, typ: u32) -> (r: Result<(), ErrorCode>)
        ensures
            typ == self.typ ==> r == Err::<(), ErrorCode>(ErrorCode::StreamRefused),
            typ != self.typ ==> r == Ok::<(), ErrorCode>(()),
    {
        if typ == self.typ {
            Err(ErrorCode::StreamRefused)
        } else {
            Ok(())
        }
    }

    /// Whether an accepted stream of type `typ` goes to the responder rather
    /// than to the user.
    pub fn is_heartbeat(&self, typ: u32) -> (r: bool)
        ensures
            r == (typ == self.typ),
    {
        typ == self.typ
    }
}

/// The heartbeat timing, in nanoseconds, and the callback that hears of each
/// beat.
pub struct HeartbeatConfig<F> {
    /// Time between heartbeats.
    pub interval: u64,
    /// Time past a missed heartbeat before the peer counts as dead.
    pub tolerance: u64,
    /// Called with each latency, and with 0 for a missed beat.
    pub callback: Option<F>,
}

impl<F> Default for HeartbeatConfig<F> {
    /// A 10 s interval, a 15 s tolerance, no callback.
    fn default() -> (r: HeartbeatConfig<F>)
        ensures
            r.interval == 10 * NANOS_PER_SEC,
            r.tolerance == 15 * NANOS_PER_SEC,
            r.callback.is_none(),
    {
        HeartbeatConfig { interval: 10 * NANOS_PER_SEC, tolerance: 15 * NANOS_PER_SEC, callback: None }
    }
}

/// Reads the shared interval and tolerance (nanoseconds). Other tasks may
/// change them at any time, so nothing is promised of the values.
pub fn get_durations(durations: &Arc<(AtomicU64, AtomicU64)>) -> (r: (u64, u64)) {
    let pair: &(AtomicU64, AtomicU64) = &**durations;
    (pair.0.load(Ordering::Relaxed), pair.1.load(Ordering::Relaxed))
}

/// The interval and tolerance shared between the heartbeat controller and
/// its tasks, readable and settable at run time.
pub struct HeartbeatTimes {
    pub durations: Arc<(AtomicU64, AtomicU64)>,
}

impl HeartbeatTimes {
    pub fn new(interval: u64, tolerance: u64) -> (r: HeartbeatTimes) {
        HeartbeatTimes { durations: Arc::new((AtomicU64::new(interval), AtomicU64::new(tolerance))) }
    }

    /// The current interval and tolerance.
    pub fn get_durations(&self) -> (r: (u64, u64)) {
        get_durations(&self.durations)
    }

    /// Changes the interval.
    pub fn set_interval(&self, interval: u64) {
        let pair: &(AtomicU64, AtomicU64) = &*self.durations;
        pair.0.store(interval, Ordering::Relaxed);
    }

    /// Changes the tolerance.
    pub fn set_tolerance(&self, tolerance: u64) {
        let pair: &(AtomicU64, AtomicU64) = &*self.durations;
        pair.1.store(tolerance, Ordering::Relaxed);
    }
}

/// Relies on rand's `OsRng` (`RngCore::try_fill_bytes`, which calls
/// getrandom): four bytes from the operating system's random source, read
/// as a big-endian ID, or `None` where that source fails. Nothing is known
/// of the value; the call returns an error rather than panic.
#[verifier::external_body]
fn random_id() -> (r: Option<u32>) {
    let mut b = [0u8; 4];
    match rand::RngCore::try_fill_bytes(&mut rand::rngs::OsRng, &mut b) {
        Ok(()) => Some(u32::from_be_bytes(b)),
        Err(_) => None,
    }
}

/// The requester's side of the heartbeat exchange: the ID it sent and
/// waits to see echoed.
pub struct Requester {
    pending: Option<u32>,
}

impl Requester {
    pub fn new() -> (r: Requester)
        ensures
            r.pending().is_none(),
    {
        Requester { pending: None }
    }

    pub closed spec fn pending(&self) -> Option<u32> {
        self.pending
    }

    /// Starts a beat with a random ID: the four bytes to write, the ID
    /// big-endian; or `None`, with nothing changed, where no random ID could
    /// be had (the requester then stops).
    pub fn start_beat(&mut self) -> (r: Option<Vec<u8>>)
        ensures
            r is Some ==> final(self).pending() is Some && r->Some_0@ == u32_be(
                final(self).pending().unwrap(),
            ),
            r is None ==> final(self).pending() == old(self).pending(),
    {
        match random_id() {
            Some(id) => Some(self.start_beat_with(id)),
            None => None,
        }
    }

    /// Starts a beat with the given ID.
    pub fn start_beat_with(&mut self, id: u32) -> (r: Vec<u8>)
        ensures
            final(self).pending() == Some(id),
            r@ == u32_be(id),
    {
        self.pending = Some(id);
        let mut r: Vec<u8> = Vec::with_capacity(4);
        push_u32_be(&mut r, id);
        assert(r@ =~= u32_be(id));
        r
    }

    /// Checks the four bytes read back against the ID sent. A mismatch, or
    /// an echo with no beat under way, is a broken peer: the requester
    /// stops.
    pub fn check_echo(&mut self, echo: &[u8]) -> (r: bool)
        requires
            echo@.len() == 4,
        ensures
            r == (old(self).pending() == Some(be_u32(echo@))),
            final(self).pending().is_none(),
    {
        let got = read_u32_be(echo, 0);
        assert(echo@.subrange(0, 4) =~= echo@);
        let ok = match self.pending {
            Some(id) => id == got,
            None => false,
        };
        self.pending = None;
        ok
    }
}

/// A complete exchange succeeds exactly when the peer echoes the bytes it
/// was sent: the echo of the beat's own bytes is accepted, and any other
/// four bytes are refused.
pub proof fn lemma_echo_matches(id: u32, echo: Seq<u8>)
    requires
        echo.len() == 4,
    ensures
        be_u32(u32_be(id)) == id,
        (Some(id) == Some(be_u32(echo))) <==> echo == u32_be(id),
{
    lemma_u32_round_trip(id);
    let e = echo;
    let (b0, b1, b2, b3) = (e[0], e[1], e[2], e[3]);
    let x = be_u32(echo);
    assert(x == (((b0 as u32) << 24u32) | ((b1 as u32) << 16u32) | ((b2 as u32) << 8u32) | (b3 as u32)));
    assert(((((b0 as u32) << 24u32) | ((b1 as u32) << 16u32) | ((b2 as u32) << 8u32) | (b3 as u32))
        >> 24u32) as u8 == b0 && ((((b0 as u32) << 24u32) | ((b1 as u32) << 16u32) | ((b2 as u32)
        << 8u32) | (b3 as u32)) >> 16u32) as u8 == b1 && ((((b0 as u32) << 24u32) | ((b1 as u32)
        << 16u32) | ((b2 as u32) << 8u32) | (b3 as u32)) >> 8u32) as u8 == b2 && ((((b0 as u32)
        << 24u32) | ((b1 as u32) << 16u32) | ((b2 as u32) << 8u32) | (b3 as u32))) as u8 == b3)
        by (bit_vector);
    if x == id {
        assert(echo =~= u32_be(id));
    }
}

/// The deadline one interval plus the tolerance after `now`, saturating at
/// the end of time.
pub open spec fn deadline_after(now: u64, interval: u64, tolerance: u64) -> u64 {
    if now + interval + tolerance > u64::MAX {
        u64::MAX
    } else {
        (now + interval + tolerance) as u64
    }
}

fn add_saturating(now: u64, interval: u64, tolerance: u64) -> (r: u64)
    ensures
        r == deadline_after(now, interval, tolerance),
{
    if interval > u64::MAX - now {
        return u64::MAX;
    }
    let a = now + interval;
    if tolerance > u64::MAX - a {
        return u64::MAX;
    }
    a + tolerance
}

/// The monitor: a deadline one interval plus the tolerance after the last
/// beat. Each latency from the requester resets it and goes to the
/// callback; a passed deadline gives the callback 0 and resets it too, so
/// a dead peer is reported again and again.
pub struct Monitor {
    pub deadline: u64,
}

impl Monitor {
    /// A monitor started at `now` (nanoseconds on the session's clock).
    pub fn new(now: u64, interval: u64, tolerance: u64) -> (r: Monitor)
        ensures
            r.deadline == deadline_after(now, interval, tolerance),
    {
        Monitor { deadline: add_saturating(now, interval, tolerance) }
    }

    /// Whether the deadline has passed at `now`.
    pub fn expired(&self, now: u64) -> (r: bool)
        ensures
            r == (now >= self.deadline),
    {
        now >= self.deadline
    }

    /// A beat came back with `latency`: the value for the callback.
    pub fn on_latency(&mut self, now: u64, latency: u64, interval: u64, tolerance: u64) -> (r: u64)
        ensures
            r == latency,
            final(self).deadline == deadline_after(now, interval, tolerance),
    {
        self.deadline = add_saturating(now, interval, tolerance);
        latency
    }

    /// The deadline passed with no beat: the callback gets 0, the missed
    /// beat's mark, and a new deadline starts.
    pub fn on_timeout(&mut self, now: u64, interval: u64, tolerance: u64) -> (r: u64)
        ensures
            r == 0,
            final(self).deadline == deadline_after(now, interval, tolerance),
    {
        self.deadline = add_saturating(now, interval, tolerance);
        0
    }
}

/// A dead peer is reported in time: after a beat at `t`, the monitor's
/// deadline is `t + interval + tolerance`; from then on it has expired, and
/// the timeout gives the callback 0 and a new deadline as far ahead.
pub proof fn lemma_missed_beat_reported(t: u64, interval: u64, tolerance: u64, later: u64)
    requires
        t + interval + tolerance <= u64::MAX,
        later >= t + interval + tolerance,
    ensures
        deadline_after(t, interval, tolerance) == t + interval + tolerance,
        later >= deadline_after(t, interval, tolerance),
{
}

} // verus!

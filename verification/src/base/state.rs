use vstd::prelude::*;
use crate::base::error::Error;

verus! {

/// The stage of a link's, a connection's or a pool's life.
#[derive(Debug, Clone, Copy, PartialEq, Eq, Structural)]
pub enum Mode {
    Init,
    Ready,
    Active,
    Pause,
    Close,
}

/// Counters of what has been transferred, and when the first transfer was.
#[derive(Debug, Clone, Copy)]
pub struct Measure {
    /// Bytes sent so far.
    pub send: usize,
    /// Bytes received so far.
    pub receive: usize,
    /// Errors recorded so far.
    pub error: usize,
    /// Seconds since the Unix epoch at the first recorded send or receive.
    pub start_timestamp: Option<i64>,
}

impl Measure {
    /// The counters before anything was recorded.
    pub open spec fn zero() -> Measure {
        Measure { send: 0, receive: 0, error: 0, start_timestamp: None }
    }

    /// The first-activity timestamp once a transfer was recorded at `now`:
    /// it is set by the first transfer and never moves again.
    pub open spec fn stamped(self, now: i64) -> Option<i64> {
        if self.start_timestamp is Some {
            self.start_timestamp
        } else {
            Some(now)
        }
    }

    /// The counters after `bytes` were sent at `now`.
    pub open spec fn after_send(self, bytes: usize, now: i64) -> Measure {
        Measure {
            send: (self.send + bytes) as usize,
            receive: self.receive,
            error: self.error,
            start_timestamp: self.stamped(now),
        }
    }

    /// The counters after `bytes` were received at `now`.
    pub open spec fn after_receive(self, bytes: usize, now: i64) -> Measure {
        Measure {
            send: self.send,
            receive: (self.receive + bytes) as usize,
            error: self.error,
            start_timestamp: self.stamped(now),
        }
    }

    /// The counters after one more error.
    pub open spec fn after_error(self) -> Measure {
        Measure {
            send: self.send,
            receive: self.receive,
            error: (self.error + 1) as usize,
            start_timestamp: self.start_timestamp,
        }
    }

    /// No counter of `self` is above the same counter of `later`, and a
    /// timestamp that `self` has is still the one that `later` has.
    pub open spec fn precedes(self, later: Measure) -> bool {
        &&& self.send <= later.send
        &&& self.receive <= later.receive
        &&& self.error <= later.error
        &&& self.start_timestamp is Some ==> later.start_timestamp == self.start_timestamp
    }
}

impl Default for Measure {
    fn default() -> (m: Measure)
        ensures
            m == Measure::zero(),
    {
        Measure { send: 0, receive: 0, error: 0, start_timestamp: None }
    }
}

/// What a `State` holds: the current mode and the counters.
pub struct StateView {
    pub mode: Mode,
    pub measure: Measure,
}

/// The lifecycle state of one component: its mode and its counters. Both are
/// reached only through the operations below.
#[derive(Debug)]
pub struct State {
    mode: Mode,
    measure: Measure,
}

impl View for State {
    type V = StateView;

    closed spec fn view(&self) -> StateView {
        StateView { mode: self.mode, measure: self.measure }
    }
}

/// Reads the wall clock: `chrono::Utc::now()`, then `timestamp()` of it, the
/// whole seconds since the Unix epoch. The value depends on the machine's
/// clock, so nothing is claimed of it. On a machine whose clock stands before
/// 1970 `chrono` panics.
#[verifier::external_body]
fn unix_now() -> (now: i64) {
    chrono::Utc::now().timestamp()
}

impl State {
    /// A state in mode `Init` with all counters at zero.
    pub fn new() -> (state: State)
        ensures
            state@ == (StateView { mode: Mode::Init, measure: Measure::zero() }),
    {
        State { mode: Mode::Init, measure: Measure::default() }
    }

    /// The current mode.
    pub fn mode(&self) -> (out: Result<Mode, Error>)
        ensures
            out == Ok::<Mode, Error>(self@.mode),
    {
        Ok(self.mode)
    }

    /// Overwrites the mode. Any mode may follow any other.
    pub fn set_mode(&mut self, mode: Mode) -> (out: Result<(), Error>)
        ensures
            out is Ok,
            final(self)@ == (StateView { mode, measure: old(self)@.measure }),
    {
        self.mode = mode;
        Ok(())
    }

    /// A copy of the counters as they are now.
    pub fn measure(&self) -> (out: Result<Measure, Error>)
        ensures
            out == Ok::<Measure, Error>(self@.measure),
    {
        Ok(self.measure)
    }

    /// Records that `bytes` were sent at the time `now`.
    pub fn record_send_at(&mut self, bytes: usize, now: i64) -> (out: Result<(), Error>)
        requires
            old(self)@.measure.send + bytes <= usize::MAX,
        ensures
            out is Ok,
            final(self)@ == (StateView {
                mode: old(self)@.mode,
                measure: old(self)@.measure.after_send(bytes, now),
            }),
    {
        self.measure.send = self.measure.send + bytes;
        if self.measure.start_timestamp.is_none() {
            self.measure.start_timestamp = Some(now);
        }
        Ok(())
    }

    /// Records that `bytes` were received at the time `now`.
    pub fn record_receive_at(&mut self, bytes: usize, now: i64) -> (out: Result<(), Error>)
        requires
            old(self)@.measure.receive + bytes <= usize::MAX,
        ensures
            out is Ok,
            final(self)@ == (StateView {
                mode: old(self)@.mode,
                measure: old(self)@.measure.after_receive(bytes, now),
            }),
    {
        self.measure.receive = self.measure.receive + bytes;
        if self.measure.start_timestamp.is_none() {
            self.measure.start_timestamp = Some(now);
        }
        Ok(())
    }

    /// Records that `bytes` were sent now. The first-activity timestamp, if
    /// none was set yet, becomes the clock's reading.
    pub fn record_send(&mut self, bytes: usize) -> (out: Result<(), Error>)
        requires
            old(self)@.measure.send + bytes <= usize::MAX,
        ensures
            out is Ok,
            exists|now: i64|
                final(self)@ == (StateView {
                    mode: old(self)@.mode,
                    measure: #[trigger] old(self)@.measure.after_send(bytes, now),
                }),
    {
        let now = unix_now();
        self.record_send_at(bytes, now)
    }

    /// Records that `bytes` were received now. The first-activity timestamp,
    /// if none was set yet, becomes the clock's reading.
    pub fn record_receive(&mut self, bytes: usize) -> (out: Result<(), Error>)
        requires
            old(self)@.measure.receive + bytes <= usize::MAX,
        ensures
            out is Ok,
            exists|now: i64|
                final(self)@ == (StateView {
                    mode: old(self)@.mode,
                    measure: #[trigger] old(self)@.measure.after_receive(bytes, now),
                }),
    {
        let now = unix_now();
        self.record_receive_at(bytes, now)
    }

    /// Records one more error.
    pub fn record_error(&mut self) -> (out: Result<(), Error>)
        requires
            old(self)@.measure.error < usize::MAX,
        ensures
            out is Ok,
            final(self)@ == (StateView {
                mode: old(self)@.mode,
                measure: old(self)@.measure.after_error(),
            }),
    {
        self.measure.error = self.measure.error + 1;
        Ok(())
    }
}

/// The counters never go down: whatever is recorded, and whenever, the
/// counters before precede the counters after, and a first-activity timestamp
/// that was set stays as it was.
pub proof fn lemma_measure_monotonic(m: Measure, bytes: usize, now: i64)
    ensures
        m.send + bytes <= usize::MAX ==> m.precedes(m.after_send(bytes, now)),
        m.receive + bytes <= usize::MAX ==> m.precedes(m.after_receive(bytes, now)),
        m.error < usize::MAX ==> m.precedes(m.after_error()),
{
}

/// The first-activity timestamp is set at most once, by the first recorded
/// send or receive: after one transfer it is set, and a later transfer, at
/// whatever time, leaves it as the first one set it.
pub proof fn lemma_timestamp_set_once(m: Measure, bytes: usize, first: i64, second: i64)
    ensures
        m.after_send(bytes, first).start_timestamp is Some,
        m.after_receive(bytes, first).start_timestamp is Some,
        m.after_send(bytes, first).stamped(second) == m.after_send(bytes, first).start_timestamp,
        m.after_receive(bytes, first).stamped(second) == m.after_receive(
            bytes,
            first,
        ).start_timestamp,
        m.after_error().start_timestamp == m.start_timestamp,
{
}

} // verus!

use std::sync::Arc;
use vstd::prelude::*;
use crate::base::error::Error;
use crate::base::state::{Measure, Mode, State, StateView};

verus! {

/// Something with a lifecycle: it can be started, stopped and asked its mode.
pub trait Linkable {
    /// Starts the component.
    fn start(&mut self) -> (out: Result<(), Error>);

    /// Whether `stop` may return `out` and leave the component as `after`.
    /// Any outcome, unless an implementation says more.
    open spec fn stops(&self, out: Result<(), Error>, after: &Self) -> bool {
        true
    }

    /// Stops the component.
    fn stop(&mut self) -> (out: Result<(), Error>)
        ensures
            old(self).stops(out, final(self)),
    ;

    /// The component's current mode.
    fn state(&self) -> (out: Result<Mode, Error>);
}

/// Something that payloads can be sent through and received from.
pub trait Movable {
    /// What `send` needs of `data`: that the counters have room to record it.
    /// Nothing, unless an implementation says otherwise.
    open spec fn room_to_send(&self, data: Seq<u8>) -> bool {
        true
    }

    /// What `receive` needs of a buffer of `capacity` bytes: that the counters
    /// have room to record it. Nothing, unless an implementation says
    /// otherwise.
    open spec fn room_to_receive(&self, capacity: nat) -> bool {
        true
    }

    /// Sends `data` and returns the number of bytes accounted for.
    fn send(&mut self, data: &[u8]) -> (out: Result<usize, Error>)
        requires
            old(self).room_to_send(data@),
    ;

    /// Receives into `buf` and returns the number of bytes accounted for.
    fn receive(&mut self, buf: &mut [u8]) -> (out: Result<usize, Error>)
        requires
            old(self).room_to_receive(old(buf)@.len()),
    ;
}

/// The outcome of a transform, with the bytes as a sequence.
pub open spec fn outcome(out: Result<Vec<u8>, Error>) -> Result<Seq<u8>, Error> {
    match out {
        Ok(bytes) => Ok(bytes@),
        Err(e) => Err(e),
    }
}

/// A protection stage: `protect` on the way out, `expose` on the way in.
pub trait Guardable {
    /// Whether `out` is an outcome that `protect` may give on `data`. Any
    /// outcome, unless an implementation says more.
    open spec fn protects(&self, data: Seq<u8>, out: Result<Seq<u8>, Error>) -> bool {
        true
    }

    /// Whether `out` is an outcome that `expose` may give on `data`. Any
    /// outcome, unless an implementation says more.
    open spec fn exposes(&self, data: Seq<u8>, out: Result<Seq<u8>, Error>) -> bool {
        true
    }

    /// Protects `data`.
    fn protect(&self, data: &[u8]) -> (out: Result<Vec<u8>, Error>)
        ensures
            self.protects(data@, outcome(out)),
    ;

    /// Undoes `protect`.
    fn expose(&self, data: &[u8]) -> (out: Result<Vec<u8>, Error>)
        ensures
            self.exposes(data@, outcome(out)),
    ;
}

/// One byte-to-byte transform of a chain.
pub trait Handler: Send + Sync {
    /// Whether `out` is an outcome that `handle` may give on `data`. Any
    /// outcome, unless an implementation says more.
    open spec fn handles(&self, data: Seq<u8>, out: Result<Seq<u8>, Error>) -> bool {
        true
    }

    /// Transforms `data`, or refuses it.
    fn handle(&self, data: &[u8]) -> (out: Result<Vec<u8>, Error>)
        ensures
            self.handles(data@, outcome(out)),
    ;
}

/// A boxed handler is a handler: it does what its content does. With
/// `Box<dyn Handler>` as the stage type, one chain holds stages of several
/// kinds.
impl<H: Handler + ?Sized> Handler for Box<H> {
    open spec fn handles(&self, data: Seq<u8>, out: Result<Seq<u8>, Error>) -> bool {
        (**self).handles(data, out)
    }

    fn handle(&self, data: &[u8]) -> (out: Result<Vec<u8>, Error>) {
        (**self).handle(data)
    }
}

/// What one stage makes of the outcome so far: it works on the bytes that
/// came out, and lets an error through as it is.
pub open spec fn step<H: Handler>(
    stage: H,
    mid: Result<Seq<u8>, Error>,
    out: Result<Seq<u8>, Error>,
) -> bool {
    match mid {
        Ok(bytes) => stage.handles(bytes, out),
        Err(e) => out == Err::<Seq<u8>, Error>(e),
    }
}

/// Whether `out` is an outcome of passing `data` through `stages` in their
/// order. With no stage the data comes out as it went in. Otherwise the last
/// stage works on what the stages before it gave; an error of an earlier stage
/// ends the chain and comes out as that stage gave it.
pub open spec fn forward<H: Handler>(
    stages: Seq<H>,
    data: Seq<u8>,
    out: Result<Seq<u8>, Error>,
) -> bool
    decreases stages.len(),
{
    if stages.len() == 0 {
        out == Ok::<Seq<u8>, Error>(data)
    } else {
        exists|mid: Result<Seq<u8>, Error>|
            forward(stages.drop_last(), data, mid) && #[trigger] step(stages.last(), mid, out)
    }
}

/// Whether `out` is an outcome of passing `data` through `stages` from the
/// last to the first.
pub open spec fn backward<H: Handler>(
    stages: Seq<H>,
    data: Seq<u8>,
    out: Result<Seq<u8>, Error>,
) -> bool {
    forward(stages.reverse(), data, out)
}

/// The chain's outcome is what its last stage makes of the outcome of the
/// stages before it.
pub proof fn lemma_chain_grows<H: Handler>(
    stages: Seq<H>,
    data: Seq<u8>,
    mid: Result<Seq<u8>, Error>,
    out: Result<Seq<u8>, Error>,
)
    requires
        stages.len() > 0,
        forward(stages.drop_last(), data, mid),
        step(stages.last(), mid, out),
    ensures
        forward(stages, data, out),
{
}

/// An error that the first `upto` stages gave is the outcome of the whole
/// chain: the stages after them are not run.
pub proof fn lemma_failure_ends_chain<H: Handler>(
    stages: Seq<H>,
    upto: int,
    data: Seq<u8>,
    e: Error,
)
    requires
        0 <= upto <= stages.len(),
        forward(stages.subrange(0, upto), data, Err(e)),
    ensures
        forward(stages, data, Err(e)),
    decreases stages.len() - upto,
{
    if upto == stages.len() {
        assert(stages.subrange(0, upto) == stages);
    } else {
        let longer = stages.subrange(0, upto + 1);
        assert(longer.drop_last() == stages.subrange(0, upto));
        lemma_chain_grows(longer, data, Err(e), Err(e));
        lemma_failure_ends_chain(stages, upto + 1, data, e);
    }
}

/// A chain without stages hands the data on unchanged, whichever way it runs.
pub proof fn lemma_empty_chain<H: Handler>(data: Seq<u8>, out: Result<Seq<u8>, Error>)
    ensures
        forward(Seq::<H>::empty(), data, out) <==> out == Ok::<Seq<u8>, Error>(data),
        backward(Seq::<H>::empty(), data, out) <==> out == Ok::<Seq<u8>, Error>(data),
{
    assert(Seq::<H>::empty().reverse() == Seq::<H>::empty());
}

/// A chain of one stage does what that stage does, whichever way it runs.
pub proof fn lemma_single_stage<H: Handler>(stage: H, data: Seq<u8>, out: Result<Seq<u8>, Error>)
    ensures
        forward(seq![stage], data, out) <==> stage.handles(data, out),
        backward(seq![stage], data, out) <==> stage.handles(data, out),
{
    let one = seq![stage];
    assert(one.reverse() == one);
    assert(one.drop_last() == Seq::<H>::empty());
    assert(one.last() == stage);
    if stage.handles(data, out) {
        lemma_chain_grows(one, data, Ok(data), out);
    }
    if forward(one, data, out) {
        let mid = choose|mid: Result<Seq<u8>, Error>|
            forward(one.drop_last(), data, mid) && #[trigger] step(one.last(), mid, out);
        assert(mid == Ok::<Seq<u8>, Error>(data));
    }
}

/// A chain of two stages runs the first and then the second on the way out,
/// and the second and then the first on the way in.
pub proof fn lemma_two_stages<H: Handler>(
    first: H,
    second: H,
    data: Seq<u8>,
    out: Result<Seq<u8>, Error>,
)
    ensures
        forward(seq![first, second], data, out) <==> exists|mid: Result<Seq<u8>, Error>|
            first.handles(data, mid) && #[trigger] step(second, mid, out),
        backward(seq![first, second], data, out) <==> exists|mid: Result<Seq<u8>, Error>|
            second.handles(data, mid) && #[trigger] step(first, mid, out),
{
    let both = seq![first, second];
    let turned = seq![second, first];
    assert(both.reverse() == turned);
    assert(both.drop_last() == seq![first]);
    assert(turned.drop_last() == seq![second]);
    assert(both.last() == second);
    assert(turned.last() == first);
    assert forall|mid: Result<Seq<u8>, Error>|
        forward(seq![first], data, mid) <==> first.handles(data, mid) by {
        lemma_single_stage(first, data, mid);
    }
    assert forall|mid: Result<Seq<u8>, Error>|
        forward(seq![second], data, mid) <==> second.handles(data, mid) by {
        lemma_single_stage(second, data, mid);
    }
    if forward(both, data, out) {
        let mid = choose|mid: Result<Seq<u8>, Error>|
            forward(both.drop_last(), data, mid) && #[trigger] step(both.last(), mid, out);
        assert(first.handles(data, mid) && step(second, mid, out));
    }
    if exists|mid: Result<Seq<u8>, Error>|
        first.handles(data, mid) && #[trigger] step(second, mid, out) {
        let mid = choose|mid: Result<Seq<u8>, Error>|
            first.handles(data, mid) && #[trigger] step(second, mid, out);
        lemma_chain_grows(both, data, mid, out);
    }
    if forward(turned, data, out) {
        let mid = choose|mid: Result<Seq<u8>, Error>|
            forward(turned.drop_last(), data, mid) && #[trigger] step(turned.last(), mid, out);
        assert(second.handles(data, mid) && step(first, mid, out));
    }
    if exists|mid: Result<Seq<u8>, Error>|
        second.handles(data, mid) && #[trigger] step(first, mid, out) {
        let mid = choose|mid: Result<Seq<u8>, Error>|
            second.handles(data, mid) && #[trigger] step(first, mid, out);
        lemma_chain_grows(turned, data, mid, out);
    }
}

/// Passes `data` through `stages` in their order and stops at the first
/// stage that fails.
pub fn run_forward<H: Handler>(stages: &Vec<H>, data: &[u8]) -> (out: Result<Vec<u8>, Error>)
    ensures
        forward(stages@, data@, outcome(out)),
{
    let mut processed: Vec<u8> = vstd::slice::slice_to_vec(data);
    let mut i: usize = 0;
    assert(stages@.subrange(0, 0) == Seq::<H>::empty());
    while i < stages.len()
        invariant
            i <= stages@.len(),
            forward(stages@.subrange(0, i as int), data@, Ok(processed@)),
        decreases stages@.len() - i,
    {
        let ghost before = stages@.subrange(0, i as int);
        let ghost longer = stages@.subrange(0, i + 1);
        assert(longer.drop_last() == before);
        assert(longer.last() == stages@[i as int]);
        match stages[i].handle(processed.as_slice()) {
            Ok(next) => {
                proof {
                    lemma_chain_grows(longer, data@, Ok(processed@), Ok(next@));
                }
                processed = next;
            },
            Err(e) => {
                proof {
                    lemma_chain_grows(longer, data@, Ok(processed@), Err(e));
                    lemma_failure_ends_chain(stages@, i + 1, data@, e);
                }
                return Err(e);
            },
        }
        i += 1;
    }
    assert(stages@.subrange(0, i as int) == stages@);
    Ok(processed)
}

/// Passes `data` through `stages` from the last to the first and stops at the
/// first stage that fails.
pub fn run_backward<H: Handler>(stages: &Vec<H>, data: &[u8]) -> (out: Result<Vec<u8>, Error>)
    ensures
        backward(stages@, data@, outcome(out)),
{
    let mut processed: Vec<u8> = vstd::slice::slice_to_vec(data);
    let mut i: usize = stages.len();
    let ghost turned = stages@.reverse();
    assert(turned.subrange(0, 0) == Seq::<H>::empty());
    while i > 0
        invariant
            i <= stages@.len(),
            turned == stages@.reverse(),
            forward(turned.subrange(0, stages@.len() - i), data@, Ok(processed@)),
        decreases i,
    {
        let ghost done = stages@.len() - i;
        let ghost before = turned.subrange(0, done);
        let ghost longer = turned.subrange(0, done + 1);
        assert(longer.drop_last() == before);
        assert(longer.last() == stages@[i - 1]);
        match stages[i - 1].handle(processed.as_slice()) {
            Ok(next) => {
                proof {
                    lemma_chain_grows(longer, data@, Ok(processed@), Ok(next@));
                }
                processed = next;
            },
            Err(e) => {
                proof {
                    lemma_chain_grows(longer, data@, Ok(processed@), Err(e));
                    lemma_failure_ends_chain(turned, done + 1, data@, e);
                }
                return Err(e);
            },
        }
        i -= 1;
    }
    assert(turned.subrange(0, stages@.len() - i) == turned);
    Ok(processed)
}

/// The configuration that links, connections and pools are made with.
#[derive(Debug, Clone)]
pub struct Settings {
    /// A name for diagnostics.
    pub name: String,
    /// The largest payload, in bytes.
    pub size: usize,
    /// A timeout value, kept for later use.
    pub wait: u64,
}

impl Default for Settings {
    fn default() -> (settings: Settings)
        ensures
            settings.name@ == "link"@,
            settings.size == 65536,
            settings.wait == 30,
    {
        Settings { name: "link".to_string(), size: 65536, wait: 30 }
    }
}

/// A logical channel: a lifecycle state and an ordered chain of stages that
/// every outgoing payload passes through.
pub struct Link<H> {
    settings: Arc<Settings>,
    state: State,
    handlers: Vec<H>,
}

impl<H: Handler> Link<H> {
    /// The largest payload that the link takes.
    pub closed spec fn limit(&self) -> usize {
        self.settings.size
    }

    /// The link's mode and counters.
    pub closed spec fn status(&self) -> StateView {
        self.state@
    }

    /// The link's stages, in the order in which they were added.
    pub closed spec fn stages(&self) -> Seq<H> {
        self.handlers@
    }

    /// A link in mode `Init`, with no stage and all counters at zero.
    pub fn new(settings: Settings) -> (link: Self)
        ensures
            link.limit() == settings.size,
            link.status() == (StateView { mode: Mode::Init, measure: Measure::zero() }),
            link.stages() == Seq::<H>::empty(),
    {
        Link { settings: Arc::new(settings), state: State::new(), handlers: Vec::new() }
    }

    /// Adds `handler` as the last stage.
    pub fn add_handler(&mut self, handler: H)
        ensures
            final(self).stages() == old(self).stages().push(handler),
            final(self).limit() == old(self).limit(),
            final(self).status() == old(self).status(),
    {
        self.handlers.push(handler);
    }

    /// A copy of the link's counters.
    pub fn measure(&self) -> (out: Result<Measure, Error>)
        ensures
            out == Ok::<Measure, Error>(self.status().measure),
    {
        self.state.measure()
    }

    /// Whether `out` is what the link may make of outgoing `data`. Outside
    /// mode `Ready` it is a state error. Data above the limit is a transport
    /// error. Otherwise it is an outcome of passing the data through the
    /// stages in their order.
    pub open spec fn passes(&self, data: Seq<u8>, out: Result<Seq<u8>, Error>) -> bool {
        if self.status().mode != Mode::Ready {
            out matches Err(Error::State(m)) && m@ == "link is not ready"@
        } else if data.len() > self.limit() {
            out matches Err(Error::Net(m)) && m@ == "data too large"@
        } else {
            forward(self.stages(), data, out)
        }
    }

    /// Whether a send of `data` may end with `out` and the link as `after`.
    /// The mode, the limit and the stages stay. Where the data passed, the
    /// length of what came out is returned and added to the bytes sent, and
    /// the first-activity timestamp is set if it was not. Where it did not,
    /// the error comes back and the counters are untouched.
    pub open spec fn sends(&self, data: Seq<u8>, out: Result<usize, Error>, after: &Self) -> bool {
        &&& after.limit() == self.limit()
        &&& after.stages() == self.stages()
        &&& after.status().mode == self.status().mode
        &&& match out {
            Ok(n) => {
                &&& exists|processed: Seq<u8>| #[trigger]
                    self.passes(data, Ok(processed)) && processed.len() == n
                &&& self.status().measure.send + n <= usize::MAX
                &&& exists|now: i64|
                    after.status().measure == #[trigger] self.status().measure.after_send(n, now)
            },
            Err(e) => self.passes(data, Err(e)) && after.status() == self.status(),
        }
    }

    /// Whether a receive into a buffer of `capacity` bytes may end with `out`
    /// and the link as `after`. The mode, the limit and the stages stay.
    /// Outside mode `Ready` it is a state error, and a buffer above the limit
    /// is a transport error; neither touches the counters. Otherwise the
    /// capacity is returned and added to the bytes received, and the
    /// first-activity timestamp is set if it was not.
    pub open spec fn receives(&self, capacity: nat, out: Result<usize, Error>, after: &Self) -> bool {
        &&& after.limit() == self.limit()
        &&& after.stages() == self.stages()
        &&& after.status().mode == self.status().mode
        &&& if self.status().mode != Mode::Ready {
            &&& out matches Err(Error::State(m))
            &&& m@ == "link is not ready"@
            &&& after.status() == self.status()
        } else if capacity > self.limit() {
            &&& out matches Err(Error::Net(m))
            &&& m@ == "buffer too large"@
            &&& after.status() == self.status()
        } else {
            &&& out == Ok::<usize, Error>(capacity as usize)
            &&& self.status().measure.receive + capacity <= usize::MAX
            &&& exists|now: i64|
                after.status().measure == #[trigger] self.status().measure.after_receive(
                    capacity as usize,
                    now,
                )
        }
    }

    /// Holds outgoing `data` against the mode and the limit, then passes it
    /// through the stages.
    fn pass(&self, data: &[u8]) -> (out: Result<Vec<u8>, Error>)
        ensures
            self.passes(data@, outcome(out)),
    {
        let mode = match self.state.mode() {
            Ok(mode) => mode,
            Err(e) => { return Err(e); },
        };
        if mode != Mode::Ready {
            return Err(Error::State("link is not ready".to_string()));
        }
        if data.len() > self.settings.size {
            return Err(Error::Net("data too large".to_string()));
        }
        run_forward(&self.handlers, data)
    }

    /// Sends `data` as `send` does, where the counter of bytes sent has room
    /// for what comes out of the stages. Where it has not, nothing is
    /// recorded and nothing is returned.
    pub fn try_send(&mut self, data: &[u8]) -> (out: Option<Result<usize, Error>>)
        ensures
            match out {
                Some(result) => old(self).sends(data@, result, final(self)),
                None => {
                    &&& final(self).limit() == old(self).limit()
                    &&& final(self).stages() == old(self).stages()
                    &&& final(self).status() == old(self).status()
                    &&& exists|processed: Seq<u8>| #[trigger]
                        old(self).passes(data@, Ok(processed)) && processed.len() <= usize::MAX
                            && old(self).status().measure.send + processed.len() > usize::MAX
                },
            },
    {
        let processed = match self.pass(data) {
            Ok(processed) => processed,
            Err(e) => { return Some(Err(e)); },
        };
        let n = processed.len();
        assert(old(self).passes(data@, Ok::<Seq<u8>, Error>(processed@)));
        let sent = match self.state.measure() {
            Ok(measure) => measure.send,
            Err(e) => { return Some(Err(e)); },
        };
        if n > usize::MAX - sent {
            return None;
        }
        match self.state.record_send(n) {
            Ok(()) => Some(Ok(n)),
            Err(e) => Some(Err(e)),
        }
    }

    /// Accounts for a receive into a buffer of `capacity` bytes as `receive`
    /// does, where the counter of bytes received has room for it. Where it
    /// has not, nothing is recorded and nothing is returned.
    pub fn try_receive(&mut self, capacity: usize) -> (out: Option<Result<usize, Error>>)
        ensures
            match out {
                Some(result) => old(self).receives(capacity as nat, result, final(self)),
                None => {
                    &&& final(self).limit() == old(self).limit()
                    &&& final(self).stages() == old(self).stages()
                    &&& final(self).status() == old(self).status()
                    &&& old(self).status().mode == Mode::Ready
                    &&& capacity <= old(self).limit()
                    &&& old(self).status().measure.receive + capacity > usize::MAX
                },
            },
    {
        let mode = match self.state.mode() {
            Ok(mode) => mode,
            Err(e) => { return Some(Err(e)); },
        };
        if mode != Mode::Ready {
            return Some(Err(Error::State("link is not ready".to_string())));
        }
        if capacity > self.settings.size {
            return Some(Err(Error::Net("buffer too large".to_string())));
        }
        let received = match self.state.measure() {
            Ok(measure) => measure.receive,
            Err(e) => { return Some(Err(e)); },
        };
        if capacity > usize::MAX - received {
            return None;
        }
        match self.state.record_receive(capacity) {
            Ok(()) => Some(Ok(capacity)),
            Err(e) => Some(Err(e)),
        }
    }
}

/// Outside mode `Ready` a send is a state error, and leaves the counters as
/// they are.
pub proof fn lemma_send_needs_ready<H: Handler>(
    link: Link<H>,
    data: Seq<u8>,
    out: Result<usize, Error>,
    after: Link<H>,
)
    requires
        link.status().mode != Mode::Ready,
        link.sends(data, out, &after),
    ensures
        out matches Err(Error::State(m)) && m@ == "link is not ready"@,
        after.status() == link.status(),
{
}

/// In mode `Ready`, a send of data above the limit is a transport error, and
/// leaves the counters as they are.
pub proof fn lemma_send_holds_limit<H: Handler>(
    link: Link<H>,
    data: Seq<u8>,
    out: Result<usize, Error>,
    after: Link<H>,
)
    requires
        link.status().mode == Mode::Ready,
        data.len() > link.limit(),
        link.sends(data, out, &after),
    ensures
        out matches Err(Error::Net(m)) && m@ == "data too large"@,
        after.status() == link.status(),
{
}

/// A send that succeeds was made in mode `Ready` with data within the limit;
/// it returns the length of what came out of the stages, and the bytes sent
/// go up by exactly that length. The other counters stay, and the
/// first-activity timestamp stays if it was set.
pub proof fn lemma_send_counts<H: Handler>(
    link: Link<H>,
    data: Seq<u8>,
    n: usize,
    after: Link<H>,
)
    requires
        link.sends(data, Ok(n), &after),
    ensures
        link.status().mode == Mode::Ready,
        data.len() <= link.limit(),
        exists|processed: Seq<u8>| #[trigger]
            forward(link.stages(), data, Ok(processed)) && processed.len() == n,
        after.status().measure.send == link.status().measure.send + n,
        after.status().measure.receive == link.status().measure.receive,
        after.status().measure.error == link.status().measure.error,
        after.status().measure.start_timestamp is Some,
        link.status().measure.precedes(after.status().measure),
{
    let processed = choose|processed: Seq<u8>| #[trigger]
        link.passes(data, Ok(processed)) && processed.len() == n;
    assert(forward(link.stages(), data, Ok(processed)) && processed.len() == n);
}

/// Where the stages have one outcome on `data`, and it is `processed`, a send
/// in mode `Ready` of data within the limit returns the length of
/// `processed`, adds exactly that to the bytes sent, and leaves the mode and
/// the other counters.
pub proof fn lemma_send_of_decided_chain<H: Handler>(
    link: Link<H>,
    data: Seq<u8>,
    processed: Seq<u8>,
    out: Result<usize, Error>,
    after: Link<H>,
)
    requires
        link.status().mode == Mode::Ready,
        data.len() <= link.limit(),
        forall|any: Result<Seq<u8>, Error>| #[trigger]
            forward(link.stages(), data, any) ==> any == Ok::<Seq<u8>, Error>(processed),
        link.sends(data, out, &after),
    ensures
        out == Ok::<usize, Error>(processed.len() as usize),
        after.status().mode == Mode::Ready,
        after.status().measure.send == link.status().measure.send + processed.len(),
        after.status().measure.receive == link.status().measure.receive,
        after.status().measure.error == link.status().measure.error,
{
    match out {
        Ok(n) => {
            let came = choose|came: Seq<u8>| #[trigger]
                link.passes(data, Ok(came)) && came.len() == n;
            assert(forward(link.stages(), data, Ok(came)));
        },
        Err(e) => {
            assert(forward(link.stages(), data, Err(e)));
        },
    }
}

/// A link without stages, in mode `Ready`, sends data within the limit as it
/// is: the send succeeds with the data's own length, if the counter has room.
pub proof fn lemma_send_without_stages<H: Handler>(
    link: Link<H>,
    data: Seq<u8>,
    out: Result<usize, Error>,
    after: Link<H>,
)
    requires
        link.status().mode == Mode::Ready,
        data.len() <= link.limit(),
        link.stages().len() == 0,
        link.sends(data, out, &after),
    ensures
        out == Ok::<usize, Error>(data.len() as usize),
        after.status().measure.send == link.status().measure.send + data.len(),
{
    assert(link.stages() == Seq::<H>::empty());
    match out {
        Ok(n) => {
            let processed = choose|processed: Seq<u8>| #[trigger]
                link.passes(data, Ok(processed)) && processed.len() == n;
            lemma_empty_chain::<H>(data, Ok(processed));
        },
        Err(e) => {
            lemma_empty_chain::<H>(data, Err(e));
        },
    }
}

impl<H: Handler> Linkable for Link<H> {
    /// Puts the link in mode `Ready`. Nothing else changes.
    fn start(&mut self) -> (out: Result<(), Error>)
        ensures
            out is Ok,
            final(self).status() == (StateView {
                mode: Mode::Ready,
                measure: old(self).status().measure,
            }),
            final(self).limit() == old(self).limit(),
            final(self).stages() == old(self).stages(),
    {
        self.state.set_mode(Mode::Ready)
    }

    /// Puts the link in mode `Close`. Nothing else changes.
    fn stop(&mut self) -> (out: Result<(), Error>)
        ensures
            out is Ok,
            final(self).status() == (StateView {
                mode: Mode::Close,
                measure: old(self).status().measure,
            }),
            final(self).limit() == old(self).limit(),
            final(self).stages() == old(self).stages(),
    {
        self.state.set_mode(Mode::Close)
    }

    /// The link's current mode.
    fn state(&self) -> (out: Result<Mode, Error>)
        ensures
            out == Ok::<Mode, Error>(self.status().mode),
    {
        self.state.mode()
    }
}

impl<H: Handler> Movable for Link<H> {
    /// Whatever the link makes of `data`, its length can be added to the
    /// bytes sent so far. This holds of every link that has sent nothing.
    open spec fn room_to_send(&self, data: Seq<u8>) -> bool {
        forall|processed: Seq<u8>| #[trigger]
            self.passes(data, Ok(processed)) && processed.len() <= usize::MAX
                ==> self.status().measure.send + processed.len() <= usize::MAX
    }

    /// The buffer's length can be added to the bytes received so far.
    open spec fn room_to_receive(&self, capacity: nat) -> bool {
        self.status().mode == Mode::Ready && capacity <= self.limit()
            ==> self.status().measure.receive + capacity <= usize::MAX
    }

    /// Sends `data` through the chain. Outside mode `Ready` this is a state
    /// error, and data above the limit is a transport error; neither touches
    /// the counters. Otherwise the data passes through the stages in order:
    /// an error of a stage comes back as it is, with the counters untouched,
    /// and on success the length of the processed data is recorded as sent
    /// and returned.
    fn send(&mut self, data: &[u8]) -> (out: Result<usize, Error>)
        ensures
            old(self).sends(data@, out, final(self)),
    {
        match self.try_send(data) {
            Some(out) => out,
            None => vstd::pervasive::unreached(),
        }
    }

    /// Accounts for a receive into `buf`, which is left as it is. Outside
    /// mode `Ready` this is a state error, and a buffer above the limit is a
    /// transport error; neither touches the counters. Otherwise the buffer's
    /// length is recorded as received and returned.
    fn receive(&mut self, buf: &mut [u8]) -> (out: Result<usize, Error>)
        ensures
            final(buf)@ == old(buf)@,
            old(self).receives(old(buf)@.len(), out, final(self)),
    {
        match self.try_receive(buf.len()) {
            Some(out) => out,
            None => vstd::pervasive::unreached(),
        }
    }
}

} // verus!

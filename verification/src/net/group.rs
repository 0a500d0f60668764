use std::collections::VecDeque;
use std::sync::Arc;
use vstd::prelude::*;
use crate::base::error::Error;
use crate::base::link::{Linkable, Settings};
use crate::base::state::{Measure, Mode, State, StateView};

verus! {

/// How many returned connections one `get` takes back before it goes on.
pub const DRAIN_LIMIT: usize = 10;

/// How long a caller waits for a free permit before it gives up, in
/// milliseconds.
pub const ACQUIRE_WAIT: u64 = 100;

/// A ticket for one connection lent out. Only a pool makes one.
#[derive(Debug)]
pub struct Permit {
    token: (),
}

/// What a pool holds.
pub struct GroupView<S> {
    /// The capacity that the pool was made with.
    pub size: nat,
    /// The permits that are free.
    pub permits: nat,
    /// The idle connections; the last one is lent next.
    pub idle: Seq<S>,
    /// The connections that were given back and wait to become idle again,
    /// the oldest first.
    pub returned: Seq<S>,
    /// The pool's mode and counters.
    pub status: StateView,
}

impl<S> GroupView<S> {
    /// How many of the waiting connections a drain of at most `limit` takes.
    pub open spec fn drained(self, limit: nat) -> nat {
        if self.returned.len() <= limit {
            self.returned.len()
        } else {
            limit
        }
    }

    /// The pool after the oldest waiting connections, at most `limit` of
    /// them, became idle again, in the order in which they were given back.
    pub open spec fn absorbed(self, limit: nat) -> GroupView<S> {
        let taken = self.drained(limit) as int;
        GroupView {
            size: self.size,
            permits: self.permits,
            idle: self.idle + self.returned.subrange(0, taken),
            returned: self.returned.subrange(taken, self.returned.len() as int),
            status: self.status,
        }
    }

    /// The pool after `socket` was added to the idle connections.
    pub open spec fn joined(self, socket: S) -> GroupView<S> {
        GroupView {
            size: self.size,
            permits: self.permits,
            idle: self.idle.push(socket),
            returned: self.returned,
            status: self.status,
        }
    }

    /// The pool after it lent out the idle connection that came last, with
    /// one permit.
    pub open spec fn lending(self) -> GroupView<S> {
        GroupView {
            size: self.size,
            permits: (self.permits - 1) as nat,
            idle: self.idle.drop_last(),
            returned: self.returned,
            status: self.status,
        }
    }

    /// The pool after a holder gave back what it had: its permit, if
    /// `permit` says that it had one, and its connection, if it had one.
    pub open spec fn given_back(self, permit: bool, socket: Option<S>) -> GroupView<S> {
        GroupView {
            size: self.size,
            permits: if permit {
                self.permits + 1
            } else {
                self.permits
            },
            idle: self.idle,
            returned: match socket {
                Some(socket) => self.returned.push(socket),
                None => self.returned,
            },
            status: self.status,
        }
    }

    /// The pool after it was stopped: in mode `Close`, with no connection
    /// left idle or waiting. The permits are as they were.
    pub open spec fn stopped(self) -> GroupView<S> {
        GroupView {
            size: self.size,
            permits: self.permits,
            idle: Seq::<S>::empty(),
            returned: Seq::<S>::empty(),
            status: StateView { mode: Mode::Close, measure: self.status.measure },
        }
    }

    /// The pool in another mode.
    pub open spec fn in_mode(self, mode: Mode) -> GroupView<S> {
        GroupView {
            size: self.size,
            permits: self.permits,
            idle: self.idle,
            returned: self.returned,
            status: StateView { mode, measure: self.status.measure },
        }
    }

    /// How many connections are lent out: the permits that are not free.
    pub open spec fn lent(self) -> int {
        self.size - self.permits
    }

    /// No more permits are free than the pool has in all: no more
    /// connections are lent out than the capacity, and no fewer than none.
    pub open spec fn bounded(self) -> bool {
        self.permits <= self.size
    }
}

/// The permits of a pool: how many it has in all, and how many of them are
/// free. Never more are free than there are.
struct Permits {
    size: usize,
    free: usize,
}

impl Permits {
    #[verifier::type_invariant]
    spec fn within(&self) -> bool {
        self.free <= self.size
    }
}

/// A bounded pool of connections. It lends them out one by one, each with a
/// permit, and never has more permits out than its capacity.
pub struct Group<S> {
    permits: Permits,
    sockets: Vec<S>,
    returned: VecDeque<S>,
    settings: Arc<Settings>,
    state: State,
}

impl<S> View for Group<S> {
    type V = GroupView<S>;

    closed spec fn view(&self) -> GroupView<S> {
        GroupView {
            size: self.permits.size as nat,
            permits: self.permits.free as nat,
            idle: self.sockets@,
            returned: self.returned@,
            status: self.state@,
        }
    }
}

/// One connection taken out of a pool, with the permit that goes with it.
/// Each of the two is given back at most once.
pub struct Holder<S> {
    socket: Option<S>,
    permit: Option<Permit>,
}

impl<S> Holder<S> {
    /// The connection that the holder has, if it was not given back.
    pub closed spec fn held(&self) -> Option<S> {
        self.socket
    }

    /// Whether the holder still has its permit.
    pub closed spec fn permitted(&self) -> bool {
        self.permit is Some
    }

    /// The connection, to work with.
    pub fn socket(&mut self) -> (socket: &mut S)
        requires
            old(self).held() is Some,
        ensures
            *socket == old(self).held()->0,
            final(self).held() == Some(*final(socket)),
            final(self).permitted() == old(self).permitted(),
    {
        match &mut self.socket {
            Some(socket) => socket,
            None => vstd::pervasive::unreached(),
        }
    }

    /// Whether the holder has both its connection and its permit.
    pub fn is_valid(&self) -> (valid: bool)
        ensures
            valid == (self.held() is Some && self.permitted()),
    {
        self.socket.is_some() && self.permit.is_some()
    }

    /// Takes out of the holder what it has: its connection and its permit.
    /// The holder is empty afterwards, so each of the two is taken at most
    /// once.
    pub fn take(&mut self) -> (parts: (Option<S>, Option<Permit>))
        ensures
            parts.0 == old(self).held(),
            parts.1 is Some == old(self).permitted(),
            final(self).held() is None,
            !final(self).permitted(),
    {
        let socket = self.socket.take();
        let permit = self.permit.take();
        (socket, permit)
    }

    /// Gives back what the holder has: first the permit, which is free again
    /// at once, then the connection, which waits in the pool to become idle.
    /// The holder is empty afterwards, so a second call changes nothing.
    pub fn release(&mut self, group: &mut Group<S>)
        requires
            old(self).permitted() ==> old(group)@.permits < old(group)@.size,
        ensures
            final(self).held() is None,
            !final(self).permitted(),
            final(group)@ == old(group)@.given_back(old(self).permitted(), old(self).held()),
            final(group)@.bounded(),
    {
        proof {
            use_type_invariant(&group.permits);
        }
        let (socket, permit) = self.take();
        if let Some(permit) = permit {
            group.restore(permit);
        }
        if let Some(socket) = socket {
            group.give_back(socket);
        }
    }
}

/// What one try to borrow a connection ends with.
pub enum Attempt<S> {
    /// A connection was lent out.
    Lent(Holder<S>),
    /// No permit is free yet, and the caller has not waited long enough to
    /// give up: it waits and tries again.
    Wait,
    /// The try failed, with the error to return.
    Failed(Error),
}

/// Whether a drain that has taken `processed` connections back goes on to
/// the next one.
pub fn drains_on(processed: usize) -> (on: bool)
    ensures
        on == (processed < DRAIN_LIMIT),
{
    processed < DRAIN_LIMIT
}

impl<S> Group<S> {
    /// A pool of capacity `size`: all permits free, no connection, mode `Init`.
    pub fn new(size: usize, settings: Settings) -> (group: Self)
        ensures
            group@ == (GroupView {
                size: size as nat,
                permits: size as nat,
                idle: Seq::<S>::empty(),
                returned: Seq::<S>::empty(),
                status: StateView { mode: Mode::Init, measure: Measure::zero() },
            }),
    {
        Group {
            permits: Permits { size, free: size },
            sockets: Vec::with_capacity(size),
            returned: VecDeque::new(),
            settings: Arc::new(settings),
            state: State::new(),
        }
    }

    /// The pool's capacity.
    pub fn capacity(&self) -> (size: usize)
        ensures
            size == self@.size,
            self@.bounded(),
    {
        proof {
            use_type_invariant(&self.permits);
        }
        self.permits.size
    }

    /// The permits that are free: never more than the pool has in all.
    pub fn available(&self) -> (permits: usize)
        ensures
            permits == self@.permits,
            self@.bounded(),
    {
        proof {
            use_type_invariant(&self.permits);
        }
        self.permits.free
    }

    /// Puts the pool in mode `Close`. Its connections stay where they are,
    /// until they are stopped.
    pub fn close(&mut self)
        ensures
            final(self)@ == old(self)@.in_mode(Mode::Close),
    {
        let _ = self.state.set_mode(Mode::Close);
    }

    /// Takes a permit back: it is free again at once.
    pub fn restore(&mut self, permit: Permit)
        requires
            old(self)@.permits < old(self)@.size,
        ensures
            final(self)@ == old(self)@.given_back(true, None),
            final(self)@.bounded(),
    {
        self.permits.free = self.permits.free + 1;
    }

    /// Takes a connection back: it waits, behind those that wait already, to
    /// become idle again.
    pub fn give_back(&mut self, socket: S)
        ensures
            final(self)@ == old(self)@.given_back(false, Some(socket)),
    {
        self.returned.push_back(socket);
    }

    /// Adds an idle connection. The pool is full, and the connection is
    /// refused, when it has at least as many idle connections as free permits.
    pub fn add(&mut self, socket: S) -> (out: Result<(), Error>)
        ensures
            old(self)@.idle.len() >= old(self)@.permits ==> {
                &&& out matches Err(Error::Net(m))
                &&& m@ == "group is full"@
                &&& final(self)@ == old(self)@
            },
            old(self)@.idle.len() < old(self)@.permits ==> {
                &&& out is Ok
                &&& final(self)@ == old(self)@.joined(socket)
            },
    {
        if self.sockets.len() >= self.permits.free {
            return Err(Error::Net("group is full".to_string()));
        }
        self.sockets.push(socket);
        Ok(())
    }

    /// Makes the oldest waiting connections, at most `limit` of them, idle
    /// again, and returns how many.
    fn absorb(&mut self, limit: usize) -> (taken: usize)
        ensures
            final(self)@ == old(self)@.absorbed(limit as nat),
            taken == old(self)@.drained(limit as nat),
    {
        let mut processed: usize = 0;
        while processed < limit && self.returned.len() > 0
            invariant
                processed <= limit,
                processed <= old(self).returned@.len(),
                self.permits == old(self).permits,
                self.state == old(self).state,
                self.sockets@ == old(self).sockets@ + old(self).returned@.subrange(
                    0,
                    processed as int,
                ),
                self.returned@ == old(self).returned@.subrange(
                    processed as int,
                    old(self).returned@.len() as int,
                ),
            decreases limit - processed,
        {
            match self.returned.pop_front() {
                Some(socket) => {
                    self.sockets.push(socket);
                },
                None => {},
            }
            processed = processed + 1;
        }
        processed
    }

    /// Takes back at most `DRAIN_LIMIT` of the connections that wait, the
    /// oldest first, and returns how many.
    pub fn reclaim(&mut self) -> (taken: usize)
        ensures
            final(self)@ == old(self)@.absorbed(DRAIN_LIMIT as nat),
            taken == old(self)@.drained(DRAIN_LIMIT as nat),
    {
        self.absorb(DRAIN_LIMIT)
    }

    /// Tries once to lend a connection out, after the caller has waited
    /// `waited` milliseconds for a permit. With no free permit the caller
    /// waits on, until it has waited `ACQUIRE_WAIT`: then the try fails. With
    /// a free permit the connection lent is the idle one that came last; with
    /// no idle one the permit stays free and the try fails. Only a
    /// connection that is lent changes the pool.
    pub fn attempt(&mut self, waited: u64) -> (out: Attempt<S>)
        ensures
            old(self)@.bounded(),
            final(self)@.bounded(),
            if old(self)@.permits == 0 {
                &&& final(self)@ == old(self)@
                &&& if waited < ACQUIRE_WAIT {
                    out is Wait
                } else {
                    out matches Attempt::Failed(Error::Net(m)) && m@
                        == "permit acquisition timeout"@
                }
            } else if old(self)@.idle.len() == 0 {
                &&& final(self)@ == old(self)@
                &&& out matches Attempt::Failed(Error::Net(m))
                &&& m@ == "no available sockets"@
            } else {
                &&& out matches Attempt::Lent(holder)
                &&& holder.held() == Some(old(self)@.idle.last())
                &&& holder.permitted()
                &&& final(self)@ == old(self)@.lending()
            },
    {
        proof {
            use_type_invariant(&self.permits);
        }
        if self.permits.free == 0 {
            if waited < ACQUIRE_WAIT {
                return Attempt::Wait;
            }
            return Attempt::Failed(Error::Net("permit acquisition timeout".to_string()));
        }
        match self.sockets.pop() {
            Some(socket) => {
                self.permits.free = self.permits.free - 1;
                let permit = Permit { token: () };
                Attempt::Lent(Holder { socket: Some(socket), permit: Some(permit) })
            },
            None => Attempt::Failed(Error::Net("no available sockets".to_string())),
        }
    }

    /// Lends a connection out. First the pool takes back at most
    /// `DRAIN_LIMIT` of the connections that wait. Then it needs a free
    /// permit: with none the call fails and no connection leaves. The
    /// connection lent is the idle one that came last; with no idle one the
    /// permit stays free and the call fails.
    pub fn get(&mut self) -> (out: Result<Holder<S>, Error>)
        ensures
            old(self)@.bounded(),
            final(self)@.bounded(),
            ({
                let ready = old(self)@.absorbed(DRAIN_LIMIT as nat);
                if ready.permits == 0 {
                    &&& out matches Err(Error::Net(m))
                    &&& m@ == "permit acquisition timeout"@
                    &&& final(self)@ == ready
                } else if ready.idle.len() == 0 {
                    &&& out matches Err(Error::Net(m))
                    &&& m@ == "no available sockets"@
                    &&& final(self)@ == ready
                } else {
                    &&& out matches Ok(holder)
                    &&& holder.held() == Some(ready.idle.last())
                    &&& holder.permitted()
                    &&& final(self)@ == ready.lending()
                }
            }),
    {
        let _ = self.reclaim();
        match self.attempt(ACQUIRE_WAIT) {
            Attempt::Lent(holder) => Ok(holder),
            Attempt::Failed(e) => Err(e),
            Attempt::Wait => vstd::pervasive::unreached(),
        }
    }
}

/// Whether `socket` may answer `out` when it is stopped.
pub open spec fn may_stop<S: Linkable>(socket: S, out: Result<(), Error>) -> bool {
    exists|after: S| #[trigger] socket.stops(out, &after)
}

/// Whether `outcomes` holds, for each connection of `sockets` in turn, an
/// answer that it may give when it is stopped.
pub open spec fn stopped_each<S: Linkable>(
    sockets: Seq<S>,
    outcomes: Seq<Result<(), Error>>,
) -> bool {
    &&& outcomes.len() == sockets.len()
    &&& forall|i: int| 0 <= i < sockets.len() ==> #[trigger] may_stop(sockets[i], outcomes[i])
}

/// How many of `outcomes` are failures.
pub open spec fn failures(outcomes: Seq<Result<(), Error>>) -> nat
    decreases outcomes.len(),
{
    if outcomes.len() == 0 {
        0
    } else if outcomes[0] is Err {
        1 + failures(outcomes.drop_first())
    } else {
        failures(outcomes.drop_first())
    }
}

/// No more of `outcomes` are failures than there are outcomes, and none is
/// where every connection stopped cleanly.
pub proof fn lemma_failures_counted(outcomes: Seq<Result<(), Error>>)
    ensures
        failures(outcomes) <= outcomes.len(),
        (forall|i: int| 0 <= i < outcomes.len() ==> outcomes[i] is Ok) <==> failures(outcomes)
            == 0,
    decreases outcomes.len(),
{
    if outcomes.len() > 0 {
        let rest = outcomes.drop_first();
        lemma_failures_counted(rest);
        if failures(outcomes) == 0 {
            assert forall|i: int| 0 <= i < outcomes.len() implies outcomes[i] is Ok by {
                if i > 0 {
                    assert(rest[i - 1] is Ok);
                }
            }
        }
        if forall|i: int| 0 <= i < outcomes.len() ==> outcomes[i] is Ok {
            assert forall|i: int| 0 <= i < rest.len() implies rest[i] is Ok by {
                assert(outcomes[i + 1] is Ok);
            }
        }
    }
}

/// Stops every connection of `sockets`, one after the other. A connection
/// that fails to stop does not keep the others from being stopped. Returns
/// how many failed.
fn stop_each<S: Linkable>(sockets: Vec<S>) -> (failed: usize)
    ensures
        failed <= sockets@.len(),
        exists|outcomes: Seq<Result<(), Error>>| #[trigger]
            stopped_each(sockets@, outcomes) && failed == failures(outcomes),
{
    let ghost all = sockets@;
    let mut sockets = sockets;
    let total: usize = sockets.len();
    let mut failed: usize = 0;
    let ghost mut outcomes: Seq<Result<(), Error>> = Seq::empty();
    while sockets.len() > 0
        invariant
            total == all.len(),
            sockets@.len() <= total,
            sockets@ == all.subrange(0, sockets@.len() as int),
            outcomes.len() == total - sockets@.len(),
            forall|k: int|
                0 <= k < outcomes.len() ==> #[trigger] may_stop(
                    all[sockets@.len() + k],
                    outcomes[k],
                ),
            failed == failures(outcomes),
            failed + sockets@.len() <= total,
        decreases sockets@.len(),
    {
        let ghost rest = sockets@.len() - 1;
        match sockets.pop() {
            Some(mut socket) => {
                let ghost before = socket;
                assert(before == all[rest]);
                let answer = socket.stop();
                proof {
                    assert(before.stops(answer, &socket));
                    assert(may_stop(before, answer));
                    let longer = seq![answer] + outcomes;
                    assert(longer.drop_first() == outcomes);
                    assert(longer[0] == answer);
                    assert forall|k: int| 0 <= k < longer.len() implies #[trigger] may_stop(
                        all[rest + k],
                        longer[k],
                    ) by {
                        if k > 0 {
                            assert(may_stop(all[rest + 1 + (k - 1)], outcomes[k - 1]));
                        }
                    }
                    outcomes = longer;
                }
                match answer {
                    Ok(()) => {},
                    Err(_) => {
                        failed = failed + 1;
                    },
                }
            },
            None => {},
        }
    }
    proof {
        assert forall|i: int| 0 <= i < all.len() implies #[trigger] may_stop(
            all[i],
            outcomes[i],
        ) by {
            assert(may_stop(all[sockets@.len() + i], outcomes[i]));
        }
        assert(stopped_each(all, outcomes));
    }
    failed
}

impl<S: Linkable> Group<S> {
    /// Stops the pool as `stop` does, and returns how many of its connections
    /// failed to stop: it goes to mode `Close`, takes back every connection
    /// that waits, and stops all the connections it then has, which leave
    /// the pool.
    pub fn stop_all(&mut self) -> (failed: usize)
        ensures
            final(self)@ == old(self)@.stopped(),
            exists|outcomes: Seq<Result<(), Error>>| #[trigger]
                stopped_each(old(self)@.idle + old(self)@.returned, outcomes) && failed
                    == failures(outcomes),
    {
        self.close();
        let waiting = self.returned.len();
        let _ = self.absorb(waiting);
        let mut stopping: Vec<S> = Vec::new();
        stopping.append(&mut self.sockets);
        assert(stopping@ == old(self)@.idle + old(self)@.returned) by {
            assert(old(self)@.returned.subrange(0, waiting as int) == old(self)@.returned);
        }
        let failed = stop_each(stopping);
        assert(self.returned@ == Seq::<S>::empty());
        assert(self@ == old(self)@.stopped());
        failed
    }
}

impl<S: Linkable> Linkable for Group<S> {
    /// Puts the pool in mode `Ready`. Nothing else changes.
    fn start(&mut self) -> (out: Result<(), Error>)
        ensures
            out is Ok,
            final(self)@ == old(self)@.in_mode(Mode::Ready),
    {
        self.state.set_mode(Mode::Ready)
    }

    /// Stops the pool: it goes to mode `Close`, takes back every connection
    /// that waits, and stops all the connections it then has, which leave the
    /// pool. It succeeds whether or not each of them stopped cleanly, and
    /// whatever is still lent out.
    fn stop(&mut self) -> (out: Result<(), Error>)
        ensures
            out is Ok,
            final(self)@ == old(self)@.stopped(),
            exists|outcomes: Seq<Result<(), Error>>| #[trigger]
                stopped_each(old(self)@.idle + old(self)@.returned, outcomes),
    {
        let _ = self.stop_all();
        Ok(())
    }

    /// The pool's current mode.
    fn state(&self) -> (out: Result<Mode, Error>)
        ensures
            out == Ok::<Mode, Error>(self@.status.mode),
    {
        self.state.mode()
    }
}

/// Whatever a pool does keeps it within its capacity: adding a connection,
/// taking waiting ones back, lending one out while a permit is free, taking
/// a permit back while one is out, stopping and changing mode all leave no
/// more permits free than the pool has.
pub proof fn lemma_pool_stays_bounded<S>(
    pool: GroupView<S>,
    socket: S,
    back: Option<S>,
    limit: nat,
    mode: Mode,
)
    requires
        pool.bounded(),
    ensures
        pool.joined(socket).bounded(),
        pool.absorbed(limit).bounded(),
        pool.permits > 0 ==> pool.lending().bounded(),
        pool.permits < pool.size ==> pool.given_back(true, back).bounded(),
        pool.given_back(false, back).bounded(),
        pool.stopped().bounded(),
        pool.in_mode(mode).bounded(),
        0 <= pool.lent() <= pool.size,
{
}

/// Taking waiting connections back loses none and makes none: the idle and
/// the waiting connections together are the same, in the same order, and
/// the oldest come first.
pub proof fn lemma_absorb_keeps_connections<S>(pool: GroupView<S>, limit: nat)
    ensures
        pool.absorbed(limit).idle + pool.absorbed(limit).returned == pool.idle + pool.returned,
        pool.absorbed(limit).idle.len() == pool.idle.len() + pool.drained(limit),
        pool.drained(limit) <= limit,
        pool.absorbed(limit).permits == pool.permits,
        pool.absorbed(limit).size == pool.size,
        pool.absorbed(limit).status == pool.status,
{
    let taken = pool.drained(limit) as int;
    assert(pool.returned.subrange(0, taken) + pool.returned.subrange(
        taken,
        pool.returned.len() as int,
    ) == pool.returned);
}

/// A connection that was lent out and given back is idle again after the
/// next drain, and the pool is as it was before: where nothing waits, to lend
/// the last idle connection, take it back with its permit and drain once
/// gives the pool that it started from.
pub proof fn lemma_lend_and_return<S>(pool: GroupView<S>)
    requires
        pool.bounded(),
        pool.permits > 0,
        pool.idle.len() > 0,
        pool.returned.len() == 0,
    ensures
        pool.lending().lent() == pool.lent() + 1,
        pool.lending().given_back(true, Some(pool.idle.last())).absorbed(1) == pool,
{
    let after = pool.lending().given_back(true, Some(pool.idle.last())).absorbed(1);
    assert(after.idle == pool.idle);
    assert(after.returned == pool.returned);
}

/// A holder gives back at most once: when it has given back what it had, it
/// has nothing left, and to give back nothing leaves the pool as it is.
pub proof fn lemma_second_release_is_idle<S>(pool: GroupView<S>)
    ensures
        pool.given_back(false, None) == pool,
{
}

} // verus!

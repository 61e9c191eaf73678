//! Pooled connections to one indexer's scan port.
//!
//! A connection serves one request at a time, and a scan owns its connection
//! until the stream ends. The pool hands a connection out as a [`Lease`], caps
//! the sockets that exist, idle ones included, and closes what has been idle
//! for too long. A drain changes the generation: a connection that was claimed
//! before it is closed when it comes back, and not pooled.
//!
//! The pool keeps the books. Dialling, waiting and closing are the program's:
//! it hands in what came of them and the time, in nanoseconds of a clock of its
//! own, and closes the connections that a call gives it.
use std::collections::VecDeque;
use std::time::Duration;
use vstd::prelude::*;
use crate::address::Address;
use crate::duration::{micros, nanos_in, nanos_of, seconds};
use crate::indexerx::client::ConnectOptions;
use crate::indexerx::error::{Error, ErrorKind};
use crate::indexerx::scan::{ScanStream, State};

verus! {

/// Default ceiling on established connections to one host.
pub const DEFAULT_MAX_CONNECTIONS: usize = 256;

/// Default idle lifetime before a pooled connection is closed, in seconds.
pub const DEFAULT_IDLE_TIMEOUT: u64 = 30;

/// Default wait for a connection slot before reporting backpressure, in
/// seconds.
pub const DEFAULT_ACQUIRE_TIMEOUT: u64 = 30;

/// The shortest interval at which idle connections are swept, in nanoseconds.
pub const SHORTEST_SWEEP: u128 = 1_000_000_000;

#[derive(Debug, Clone)]
pub struct PoolOptions {
    /// Hard ceiling on connections established to this host at once.
    pub max_connections: usize,
    /// How long a connection may sit idle before it is closed.
    pub idle_timeout: Duration,
    /// How long a caller waits for a slot.
    pub acquire_timeout: Duration,
    pub connect: ConnectOptions,
}

impl PoolOptions {
    pub fn new(connect: ConnectOptions) -> (r: Self)
        ensures
            r.max_connections == DEFAULT_MAX_CONNECTIONS,
            nanos_in(r.idle_timeout) == DEFAULT_IDLE_TIMEOUT * 1_000_000_000,
            nanos_in(r.acquire_timeout) == DEFAULT_ACQUIRE_TIMEOUT * 1_000_000_000,
            r.connect == connect,
    {
        PoolOptions {
            max_connections: DEFAULT_MAX_CONNECTIONS,
            idle_timeout: seconds(DEFAULT_IDLE_TIMEOUT),
            acquire_timeout: seconds(DEFAULT_ACQUIRE_TIMEOUT),
            connect,
        }
    }
}

/// What a pool has been doing, for the operator who has to size it. The
/// counters wrap.
#[derive(Debug, Clone, Copy, Default, PartialEq, Eq)]
pub struct PoolStats {
    /// Connections established and not yet closed, idle ones included.
    pub established: usize,
    /// Connections pooled and reusable right now.
    pub idle: usize,
    /// Callers waiting for a slot at this instant.
    pub waiting: usize,
    /// Reservations that had to wait at all.
    pub waits: u64,
    /// Time spent waiting, over every reservation that waited.
    pub wait_total: Duration,
    /// Reservations that gave up.
    pub timeouts: u64,
    /// Sockets opened, over the pool's life.
    pub dialed: u64,
    /// Sockets closed by the idle sweep, over the pool's life.
    pub reaped: u64,
}

/// A pooled connection and when it came back.
pub struct Pooled<C> {
    pub client: C,
    pub idle_since: u128,
}

/// What a pool holds and has counted.
#[verifier::ext_equal]
pub struct PoolState<C> {
    /// The pooled connections, in the order in which they came back.
    pub idle: Seq<Pooled<C>>,
    pub generation: u64,
    /// Slots taken: by idle connections, by leases and by reservations.
    pub established: usize,
    /// The latest time that was handed in.
    pub clock: u128,
    pub waiting: usize,
    pub waits: u64,
    /// In microseconds.
    pub wait_total: u64,
    pub timeouts: u64,
    pub dialed: u64,
    pub reaped: u64,
}

impl<C> PoolState<C> {
    /// The time, which never runs backwards.
    pub open spec fn at(self, now: u128) -> u128 {
        if now > self.clock {
            now
        } else {
            self.clock
        }
    }

    /// Slots taken by connections that are handed out or being dialled.
    pub open spec fn handed_out(self) -> int {
        self.established - self.idle.len()
    }

    /// Every connection idle for less than `timeout` is kept, in its order, and
    /// the slots of the others are free.
    pub open spec fn swept(self, timeout: u128, now: u128) -> Self {
        let kept = self.idle.filter(young(timeout, self.at(now)));
        let gone = self.idle.len() - kept.len();
        PoolState {
            idle: kept,
            clock: self.at(now),
            established: (self.established - gone) as usize,
            reaped: self.reaped.wrapping_add(gone as u64),
            ..self
        }
    }

    /// What a sweep closes, in its order.
    pub open spec fn expired(self, timeout: u128, now: u128) -> Seq<C> {
        self.idle.filter(old_enough(timeout, self.at(now))).map_values(|p: Pooled<C>| p.client)
    }

    /// A slot was given up with its connection.
    pub open spec fn freed(self) -> Self {
        PoolState { established: (self.established - 1) as usize, ..self }
    }

    /// A reservation: the connection that came back last, or else a free slot.
    pub open spec fn reserved(self, max: usize) -> Option<(Self, Option<C>)> {
        if self.idle.len() > 0 {
            Some((PoolState { idle: self.idle.drop_last(), ..self }, Some(self.idle.last().client)))
        } else if self.established < max {
            Some((PoolState { established: (self.established + 1) as usize, ..self }, None))
        } else {
            None
        }
    }

    /// Every idle connection is closed, and what was claimed before is marked.
    pub open spec fn drained(self) -> Self {
        PoolState {
            idle: Seq::empty(),
            generation: (self.generation + 1) as u64,
            established: (self.established - self.idle.len()) as usize,
            ..self
        }
    }

    /// A connection came back behind a sweep. One of the current generation is
    /// pooled; one of an older is closed, and its slot is free.
    pub open spec fn given_back(self, client: C, generation: u64, timeout: u128, now: u128) -> Self {
        let s = self.swept(timeout, now);
        if generation == s.generation {
            PoolState { idle: s.idle.push(Pooled { client, idle_since: s.clock }), ..s }
        } else {
            s.freed()
        }
    }

    /// The cap is kept, every idle connection has a slot, and the idle ones
    /// stand in the order in which they came back.
    pub open spec fn well_formed(self, max: usize) -> bool {
        &&& self.idle.len() <= self.established <= max
        &&& forall|i: int, j: int|
            0 <= i <= j < self.idle.len() ==> (#[trigger] self.idle[i]).idle_since <= (
            #[trigger] self.idle[j]).idle_since
        &&& forall|i: int|
            0 <= i < self.idle.len() ==> (#[trigger] self.idle[i]).idle_since <= self.clock
    }
}

/// The whole microseconds of a span, as far as a counter can hold them.
pub open spec fn whole_micros(d: Duration) -> u64 {
    (nanos_in(d) / 1_000) as u64
}

/// Idle for less than `timeout`.
pub open spec fn young<C>(timeout: u128, at: u128) -> spec_fn(Pooled<C>) -> bool {
    |p: Pooled<C>| at - p.idle_since < timeout
}

/// Idle for `timeout` or longer.
pub open spec fn old_enough<C>(timeout: u128, at: u128) -> spec_fn(Pooled<C>) -> bool {
    |p: Pooled<C>| at - p.idle_since >= timeout
}

/// Where the first `k` are old and the rest are young, that is how the two
/// filters part them.
proof fn lemma_parted<C>(s: Seq<Pooled<C>>, k: int, timeout: u128, at: u128)
    requires
        0 <= k <= s.len(),
        forall|i: int| 0 <= i < k ==> at - (#[trigger] s[i]).idle_since >= timeout,
        forall|i: int| k <= i < s.len() ==> at - (#[trigger] s[i]).idle_since < timeout,
    ensures
        s.filter(young(timeout, at)) == s.skip(k),
        s.filter(old_enough(timeout, at)) == s.take(k),
    decreases s.len(),
{
    reveal(Seq::filter);
    if s.len() > 0 {
        let rest = s.drop_last();
        if k == s.len() {
            lemma_parted(rest, k - 1, timeout, at);
            assert(s.take(k) =~= rest.take(k - 1).push(s.last()));
            assert(s.skip(k) =~= rest.skip(k - 1));
        } else {
            lemma_parted(rest, k, timeout, at);
            assert(s.skip(k) =~= rest.skip(k).push(s.last()));
            assert(s.take(k) =~= rest.take(k));
        }
    } else {
        assert(s.skip(k) =~= s.filter(young(timeout, at)));
        assert(s.take(k) =~= s.filter(old_enough(timeout, at)));
    }
}

/// The pool of one host. `C` is a connection.
pub struct ClientPool<C> {
    endpoint: Address,
    options: PoolOptions,
    queue: VecDeque<Pooled<C>>,
    generation: u64,
    established: usize,
    clock: u128,
    waiting: usize,
    waits: u64,
    wait_total: u64,
    timeouts: u64,
    dialed: u64,
    reaped: u64,
}

impl<C> View for ClientPool<C> {
    type V = PoolState<C>;

    closed spec fn view(&self) -> PoolState<C> {
        PoolState {
            idle: self.queue@,
            generation: self.generation,
            established: self.established,
            clock: self.clock,
            waiting: self.waiting,
            waits: self.waits,
            wait_total: self.wait_total,
            timeouts: self.timeouts,
            dialed: self.dialed,
            reaped: self.reaped,
        }
    }
}

impl<C> ClientPool<C> {
    pub closed spec fn spec_endpoint(&self) -> Address {
        self.endpoint
    }

    pub closed spec fn spec_options(&self) -> PoolOptions {
        self.options
    }

    /// Whether the options and the endpoint are those of another pool.
    pub open spec fn set_up_as(&self, other: &Self) -> bool {
        self.spec_endpoint() == other.spec_endpoint() && self.spec_options()
            == other.spec_options()
    }

    #[verifier::type_invariant]
    closed spec fn kept(&self) -> bool {
        self@.well_formed(self.options.max_connections)
    }

    pub fn new(endpoint: Address, options: PoolOptions) -> (r: Self)
        ensures
            r.spec_endpoint() == endpoint,
            r.spec_options() == options,
            r@ == (PoolState::<C> {
                idle: Seq::empty(),
                generation: 0,
                established: 0,
                clock: 0,
                waiting: 0,
                waits: 0,
                wait_total: 0,
                timeouts: 0,
                dialed: 0,
                reaped: 0,
            }),
    {
        ClientPool {
            endpoint,
            options,
            queue: VecDeque::new(),
            generation: 0,
            established: 0,
            clock: 0,
            waiting: 0,
            waits: 0,
            wait_total: 0,
            timeouts: 0,
            dialed: 0,
            reaped: 0,
        }
    }

    pub fn endpoint(&self) -> (r: &Address)
        ensures
            *r == self.spec_endpoint(),
    {
        &self.endpoint
    }

    pub fn options(&self) -> (r: &PoolOptions)
        ensures
            *r == self.spec_options(),
    {
        &self.options
    }

    pub fn generation(&self) -> (r: u64)
        ensures
            r == self@.generation,
    {
        self.generation
    }

    /// How often to sweep besides the sweeps that a reservation and a return
    /// make, in nanoseconds: those happen only while the pool is busy.
    pub fn sweep_every(&self) -> (r: u128)
        ensures
            r == (if nanos_in(self.spec_options().idle_timeout) / 2 > SHORTEST_SWEEP {
                nanos_in(self.spec_options().idle_timeout) / 2
            } else {
                SHORTEST_SWEEP
            }),
    {
        let half: u128 = nanos_of(self.options.idle_timeout) / 2;
        if half > SHORTEST_SWEEP {
            half
        } else {
            SHORTEST_SWEEP
        }
    }

    /// Takes the connections that have been idle for the timeout or longer out
    /// of the pool, for the caller to close.
    pub fn sweep_idle(&mut self, now: u128) -> (closed: Vec<C>)
        ensures
            final(self).set_up_as(old(self)),
            final(self)@ == old(self)@.swept(nanos_in(old(self).spec_options().idle_timeout), now),
            closed@ == old(self)@.expired(nanos_in(old(self).spec_options().idle_timeout), now),
            final(self)@.well_formed(final(self).spec_options().max_connections),
    {
        let ghost before = *self;
        proof {
            use_type_invariant(&*self);
        }
        if now > self.clock {
            self.clock = now;
        }
        let timeout: u128 = nanos_of(self.options.idle_timeout);
        let at: u128 = self.clock;
        let mut queue: VecDeque<Pooled<C>> = VecDeque::new();
        std::mem::swap(&mut queue, &mut self.queue);
        let mut closed: Vec<C> = Vec::new();
        while queue.len() > 0 && at - queue[0].idle_since >= timeout
            invariant
                before@.well_formed(before.options.max_connections),
                at == before@.at(now),
                closed@.len() <= before.queue@.len(),
                queue@ == before.queue@.skip(closed@.len() as int),
                closed@ == before.queue@.take(closed@.len() as int).map_values(
                    |p: Pooled<C>| p.client,
                ),
                forall|i: int|
                    0 <= i < closed@.len() ==> at - (#[trigger] before.queue@[i]).idle_since
                        >= timeout,
            ensures
                queue@.len() > 0 ==> at - queue@[0].idle_since < timeout,
            decreases queue@.len(),
        {
            let ghost k = closed@.len() as int;
            assert(before.queue@[k] == queue@[0]);
            if let Some(pooled) = queue.pop_front() {
                closed.push(pooled.client);
                assert(queue@ =~= before.queue@.skip(k + 1));
                assert(before.queue@.take(k + 1) =~= before.queue@.take(k).push(pooled));
            }
        }
        proof {
            let k = closed@.len() as int;
            assert forall|i: int| k <= i < before.queue@.len() implies at - (
            #[trigger] before.queue@[i]).idle_since < timeout by {
                assert(queue@[0] == before.queue@[k]);
            }
            lemma_parted(before.queue@, k, timeout, at);
        }
        self.established = self.established - closed.len();
        std::mem::swap(&mut queue, &mut self.queue);
        self.reaped = self.reaped.wrapping_add(closed.len() as u64);
        closed
    }

    /// Claims a slot now: the warmest idle connection with the slot it has, or
    /// else a free slot to dial into. `None` where the pool is at its cap with
    /// nothing idle.
    pub fn try_reserve(&mut self) -> (r: Option<Reservation<C>>)
        ensures
            final(self).set_up_as(old(self)),
            match old(self)@.reserved(old(self).spec_options().max_connections) {
                Some((after, client)) => final(self)@ == after && (r matches Some(reservation)
                    && reservation.warm() == client && reservation.spec_generation()
                    == old(self)@.generation),
                None => final(self)@ == old(self)@ && r is None,
            },
    {
        let ghost before = *self;
        proof {
            use_type_invariant(&*self);
        }
        let mut queue: VecDeque<Pooled<C>> = VecDeque::new();
        std::mem::swap(&mut queue, &mut self.queue);
        match queue.pop_back() {
            Some(pooled) => {
                assert(queue@ =~= before.queue@.drop_last());
                std::mem::swap(&mut queue, &mut self.queue);
                Some(Reservation { client: Some(pooled.client), generation: self.generation })
            },
            None => {
                assert(self.queue@ =~= before.queue@);
                if self.established < self.options.max_connections {
                    self.established = self.established + 1;
                    Some(Reservation { client: None, generation: self.generation })
                } else {
                    None
                }
            },
        }
    }

    /// Sweeps, then claims a slot if one is there now. With `None` the caller
    /// waits: [`ClientPool::begin_wait`], then [`ClientPool::try_reserve`]
    /// whenever a connection came back or a slot came free, then
    /// [`ClientPool::end_wait`]. The connections beside are to be closed.
    pub fn reserve(&mut self, now: u128) -> (r: (Option<Reservation<C>>, Vec<C>))
        ensures
            final(self).set_up_as(old(self)),
            r.1@ == old(self)@.expired(nanos_in(old(self).spec_options().idle_timeout), now),
            ({
                let swept = old(self)@.swept(nanos_in(old(self).spec_options().idle_timeout), now);
                match swept.reserved(old(self).spec_options().max_connections) {
                    Some((after, client)) => final(self)@ == after && (r.0 matches Some(
                        reservation,
                    ) && reservation.warm() == client && reservation.spec_generation()
                        == swept.generation),
                    None => final(self)@ == swept && r.0 is None,
                }
            }),
    {
        let closed: Vec<C> = self.sweep_idle(now);
        (self.try_reserve(), closed)
    }

    /// A caller begins to wait for a slot.
    pub fn begin_wait(&mut self)
        ensures
            final(self).set_up_as(old(self)),
            final(self)@ == (PoolState {
                waiting: old(self)@.waiting.wrapping_add(1),
                ..old(self)@
            }),
    {
        proof {
            use_type_invariant(&*self);
        }
        self.waiting = self.waiting.wrapping_add(1);
    }

    /// A wait is over that took `elapsed`: with what it was served with, or,
    /// for want of anything, with an error that names the host.
    pub fn end_wait(&mut self, elapsed: Duration, served: Option<Reservation<C>>) -> (r: Result<
        Reservation<C>,
        Error,
    >)
        ensures
            final(self).set_up_as(old(self)),
            final(self)@ == (PoolState {
                waiting: old(self)@.waiting.wrapping_sub(1),
                waits: old(self)@.waits.wrapping_add(1),
                wait_total: old(self)@.wait_total.wrapping_add(whole_micros(elapsed)),
                timeouts: if served is None {
                    old(self)@.timeouts.wrapping_add(1)
                } else {
                    old(self)@.timeouts
                },
                ..old(self)@
            }),
            served matches Some(reservation) ==> r == Ok::<Reservation<C>, Error>(reservation),
            served is None ==> (r matches Err(e) && (e.spec_kind() matches ErrorKind::PoolExhausted {
                endpoint,
                waited,
            } && endpoint@ == old(self).spec_endpoint().text() && waited == elapsed)
                && e.source_text() is None),
    {
        proof {
            use_type_invariant(&*self);
        }
        self.waiting = self.waiting.wrapping_sub(1);
        self.waits = self.waits.wrapping_add(1);
        let waited: u128 = nanos_of(elapsed) / 1_000;
        self.wait_total = self.wait_total.wrapping_add(#[verifier::truncate] (waited as u64));
        match served {
            Some(reservation) => Ok(reservation),
            None => {
                self.timeouts = self.timeouts.wrapping_add(1);
                Err(Error::new_pool_exhausted_error(self.endpoint.message(), elapsed))
            },
        }
    }

    /// How many connections are pooled.
    pub fn idle_count(&self) -> (r: usize)
        ensures
            r == self@.idle.len(),
    {
        self.queue.len()
    }

    /// How many slots are taken by connections that are not pooled.
    pub fn handed_out(&self) -> (r: usize)
        ensures
            r == self@.handed_out(),
    {
        proof {
            use_type_invariant(self);
        }
        self.established - self.queue.len()
    }

    /// What this pool has been doing, for sizing it.
    pub fn stats(&self) -> (r: PoolStats)
        ensures
            r.established == self@.established,
            r.idle == self@.idle.len(),
            r.waiting == self@.waiting,
            r.waits == self@.waits,
            nanos_in(r.wait_total) == self@.wait_total * 1_000,
            r.timeouts == self@.timeouts,
            r.dialed == self@.dialed,
            r.reaped == self@.reaped,
            r.idle <= r.established <= self.spec_options().max_connections,
    {
        proof {
            use_type_invariant(self);
        }
        PoolStats {
            established: self.established,
            idle: self.queue.len(),
            waiting: self.waiting,
            waits: self.waits,
            wait_total: micros(self.wait_total),
            timeouts: self.timeouts,
            dialed: self.dialed,
            reaped: self.reaped,
        }
    }

    /// Marks every connection unusable. The idle ones are for the caller to
    /// close; those that are handed out are closed when they come back, so a
    /// scan that is streaming on one runs to its end.
    pub fn drain(&mut self) -> (closed: Vec<C>)
        requires
            old(self)@.generation < u64::MAX,
        ensures
            final(self).set_up_as(old(self)),
            final(self)@ == old(self)@.drained(),
            closed@ == old(self)@.idle.map_values(|p: Pooled<C>| p.client),
    {
        let ghost before = *self;
        proof {
            use_type_invariant(&*self);
        }
        self.generation = self.generation + 1;
        let mut queue: VecDeque<Pooled<C>> = VecDeque::new();
        std::mem::swap(&mut queue, &mut self.queue);
        self.established = self.established - queue.len();
        let mut closed: Vec<C> = Vec::new();
        while queue.len() > 0
            invariant
                closed@.len() <= before.queue@.len(),
                queue@ == before.queue@.skip(closed@.len() as int),
                closed@ == before.queue@.take(closed@.len() as int).map_values(
                    |p: Pooled<C>| p.client,
                ),
            decreases queue@.len(),
        {
            let ghost k = closed@.len() as int;
            if let Some(pooled) = queue.pop_front() {
                closed.push(pooled.client);
                assert(queue@ =~= before.queue@.skip(k + 1));
                assert(before.queue@.take(k + 1) =~= before.queue@.take(k).push(pooled));
            }
        }
        assert(before.queue@.take(closed@.len() as int) =~= before.queue@);
        assert(self.queue@ =~= Seq::empty());
        closed
    }

    /// A dial into a claimed slot came out. One that failed frees the slot.
    pub fn dialed(&mut self, reservation: Dialing, outcome: Result<C, Error>) -> (r: Result<
        Lease<C>,
        Error,
    >)
        requires
            old(self)@.handed_out() > 0,
        ensures
            final(self).set_up_as(old(self)),
            match outcome {
                Ok(client) => final(self)@ == (PoolState {
                    dialed: old(self)@.dialed.wrapping_add(1),
                    ..old(self)@
                }) && (r matches Ok(lease) && lease.client() == Some(client)
                    && lease.spec_generation() == reservation.spec_generation()),
                Err(e) => final(self)@ == old(self)@.freed() && r == Err::<Lease<C>, Error>(e),
            },
    {
        proof {
            use_type_invariant(&*self);
        }
        match outcome {
            Ok(client) => {
                self.dialed = self.dialed.wrapping_add(1);
                Ok(Lease { client: Some(client), generation: reservation.generation })
            },
            Err(e) => {
                self.established = self.established - 1;
                Err(e)
            },
        }
    }

    /// Gives a reservation up. A warm connection in it is for the caller to
    /// close.
    pub fn abandon(&mut self, reservation: Reservation<C>) -> (closed: Option<C>)
        requires
            old(self)@.handed_out() > 0,
        ensures
            final(self).set_up_as(old(self)),
            final(self)@ == old(self)@.freed(),
            closed == reservation.warm(),
    {
        proof {
            use_type_invariant(&*self);
        }
        self.established = self.established - 1;
        reservation.client
    }

    /// Gives up a slot that was being dialed into.
    pub fn abandon_dial(&mut self, dialing: Dialing)
        requires
            old(self)@.handed_out() > 0,
        ensures
            final(self).set_up_as(old(self)),
            final(self)@ == old(self)@.freed(),
    {
        proof {
            use_type_invariant(&*self);
        }
        let _ = dialing;
        self.established = self.established - 1;
    }

    /// Takes a lease back. Its connection is pooled where it was claimed in
    /// this generation, and then a waiter can be served; else, and where a scan
    /// kept it, the slot is free. The connections beside are to be closed: what
    /// was swept, and behind it the one that is too old to pool.
    pub fn release(&mut self, lease: Lease<C>, now: u128) -> (r: (Returned, Vec<C>))
        requires
            old(self)@.handed_out() > 0,
        ensures
            final(self).set_up_as(old(self)),
            match lease.client() {
                Some(client) => {
                    let timeout = nanos_in(old(self).spec_options().idle_timeout);
                    &&& final(self)@ == old(self)@.given_back(
                        client,
                        lease.spec_generation(),
                        timeout,
                        now,
                    )
                    &&& if lease.spec_generation() == old(self)@.generation {
                        r.0 == Returned::Pooled && r.1@ == old(self)@.expired(timeout, now)
                    } else {
                        r.0 == Returned::Closed && r.1@ == old(self)@.expired(timeout, now).push(
                            client,
                        )
                    }
                },
                None => final(self)@ == old(self)@.freed() && r.0 == Returned::Closed && r.1@.len()
                    == 0,
            },
    {
        match lease.client {
            Some(client) => self.give_back(client, lease.generation, now),
            None => {
                proof {
                    use_type_invariant(&*self);
                }
                self.established = self.established - 1;
                (Returned::Closed, Vec::new())
            },
        }
    }

    fn give_back(&mut self, client: C, generation: u64, now: u128) -> (r: (Returned, Vec<C>))
        requires
            old(self)@.handed_out() > 0,
        ensures
            final(self).set_up_as(old(self)),
            final(self)@ == old(self)@.given_back(
                client,
                generation,
                nanos_in(old(self).spec_options().idle_timeout),
                now,
            ),
            if generation == old(self)@.generation {
                r.0 == Returned::Pooled && r.1@ == old(self)@.expired(
                    nanos_in(old(self).spec_options().idle_timeout),
                    now,
                )
            } else {
                r.0 == Returned::Closed && r.1@ == old(self)@.expired(
                    nanos_in(old(self).spec_options().idle_timeout),
                    now,
                ).push(client)
            },
    {
        proof {
            use_type_invariant(&*self);
        }
        let ghost before = self@;
        let ghost timeout = nanos_in(self.options.idle_timeout);
        let mut closed: Vec<C> = self.sweep_idle(now);
        proof {
            use_type_invariant(&*self);
            lemma_sweep_spares_the_others(before, self.options.max_connections, timeout, now);
        }
        if generation == self.generation {
            let idle_since: u128 = self.clock;
            let mut queue: VecDeque<Pooled<C>> = VecDeque::new();
            std::mem::swap(&mut queue, &mut self.queue);
            queue.push_back(Pooled { client, idle_since });
            std::mem::swap(&mut queue, &mut self.queue);
            (Returned::Pooled, closed)
        } else {
            self.established = self.established - 1;
            closed.push(client);
            (Returned::Closed, closed)
        }
    }

    /// Discards a lease instead of pooling its connection, which is for the
    /// caller to close. The slot is free.
    pub fn discard(&mut self, lease: Lease<C>) -> (closed: Option<C>)
        requires
            old(self)@.handed_out() > 0,
        ensures
            final(self).set_up_as(old(self)),
            final(self)@ == old(self)@.freed(),
            closed == lease.client(),
    {
        proof {
            use_type_invariant(&*self);
        }
        self.established = self.established - 1;
        lease.client
    }
}

/// What came of a connection that was given back.
#[derive(Debug, Clone, Copy, PartialEq, Eq, Structural)]
pub enum Returned {
    /// It is idle in the pool: a waiter can have it.
    Pooled,
    /// It is gone, and its slot is free.
    Closed,
}

/// A claimed slot, not yet necessarily a connection.
pub struct Reservation<C> {
    client: Option<C>,
    generation: u64,
}

/// A claimed slot with nothing in it.
pub struct Dialing {
    generation: u64,
}

impl Dialing {
    pub closed spec fn spec_generation(&self) -> u64 {
        self.generation
    }
}

/// What a reservation needs to become a lease.
pub enum Connecting<C> {
    /// Nothing: the warm connection is reused.
    Warm(Lease<C>),
    /// A dial, whose outcome goes to [`ClientPool::dialed`].
    Dial(Dialing),
}

impl<C> Reservation<C> {
    /// The idle connection that was claimed, if it was one.
    pub closed spec fn warm(&self) -> Option<C> {
        self.client
    }

    pub closed spec fn spec_generation(&self) -> u64 {
        self.generation
    }

    /// Reuses the warm connection, or asks for a dial into the slot.
    pub fn connect(self) -> (r: Connecting<C>)
        ensures
            match self.warm() {
                Some(client) => r matches Connecting::Warm(lease) && lease.client() == Some(client)
                    && lease.spec_generation() == self.spec_generation(),
                None => r matches Connecting::Dial(d) && d.spec_generation()
                    == self.spec_generation(),
            },
    {
        match self.client {
            Some(client) => Connecting::Warm(
                Lease { client: Some(client), generation: self.generation },
            ),
            None => Connecting::Dial(Dialing { generation: self.generation }),
        }
    }
}

/// A connection borrowed from the pool, and the slot it occupies. While a scan
/// has the connection, the lease is the slot alone.
pub struct Lease<C> {
    client: Option<C>,
    /// The pool's generation when the slot was claimed.
    generation: u64,
}

impl<C> Lease<C> {
    pub closed spec fn client(&self) -> Option<C> {
        self.client
    }

    pub closed spec fn spec_generation(&self) -> u64 {
        self.generation
    }

    /// Whether the lease has its connection, as opposed to a scan.
    pub fn has_client(&self) -> (r: bool)
        ensures
            r == (self.client() is Some),
    {
        self.client.is_some()
    }

    /// The borrowed connection.
    pub fn client_mut(&mut self) -> (r: &mut C)
        requires
            old(self).client() is Some,
        ensures
            Some(*r) == old(self).client(),
            final(self).client() == Some(*final(r)),
            final(self).spec_generation() == old(self).spec_generation(),
    {
        match &mut self.client {
            Some(client) => client,
            None => vstd::pervasive::unreached(),
        }
    }

    /// Starts a scan, whose stream has the connection from now on. The slot
    /// stays taken.
    pub fn start_scan(&mut self) -> (r: ScanStream<C>)
        requires
            old(self).client() is Some,
        ensures
            r.held() == old(self).client(),
            r.rows().len() == 0,
            r.state() == State::Streaming,
            r.units() is None,
            final(self).client() is None,
            final(self).spec_generation() == old(self).spec_generation(),
    {
        match self.client.take() {
            Some(client) => ScanStream::new(client),
            None => vstd::pervasive::unreached(),
        }
    }

    /// Takes the connection back from a stream that ended cleanly.
    pub fn restore(&mut self, client: C)
        ensures
            final(self).client() == Some(client),
            final(self).spec_generation() == old(self).spec_generation(),
    {
        self.client = Some(client);
    }
}

/// A sweep takes nothing but idle connections.
proof fn lemma_sweep_spares_the_others<C>(s: PoolState<C>, max: usize, timeout: u128, now: u128)
    requires
        s.well_formed(max),
    ensures
        s.swept(timeout, now).handed_out() == s.handed_out(),
        s.swept(timeout, now).generation == s.generation,
        s.swept(timeout, now).clock == s.at(now),
{
    s.idle.lemma_filter_len(young(timeout, s.at(now)));
}

/// A connection that was claimed before a drain is not pooled when it comes
/// back after it: the pool is as an ordinary sweep leaves it, and the slot is
/// free.
pub proof fn a_connection_from_before_a_drain_is_not_pooled<C>(
    s: PoolState<C>,
    max: usize,
    client: C,
    generation: u64,
    timeout: u128,
    now: u128,
)
    requires
        s.well_formed(max),
        s.handed_out() > 0,
        generation <= s.generation < u64::MAX,
    ensures
        ({
            let after = s.drained().given_back(client, generation, timeout, now);
            &&& after.idle.len() == 0
            &&& after.established == s.handed_out() - 1
        }),
{
    let d = s.drained();
    assert(d.idle.filter(young(timeout, d.at(now))) =~= Seq::<Pooled<C>>::empty()) by {
        reveal(Seq::filter);
    }
}

/// A drain marks a generation and not the pool: a connection that is claimed
/// after it is pooled when it comes back.
pub proof fn a_connection_from_after_a_drain_is_pooled<C>(
    s: PoolState<C>,
    max: usize,
    client: C,
    timeout: u128,
    now: u128,
)
    requires
        s.well_formed(max),
        s.generation < u64::MAX,
        s.drained().handed_out() > 0,
    ensures
        ({
            let d = s.drained();
            let after = d.given_back(client, d.generation, timeout, now);
            &&& after.idle == seq![Pooled { client, idle_since: d.at(now) }]
            &&& after.established == d.established
        }),
{
    let d = s.drained();
    assert(d.idle.filter(young(timeout, d.at(now))) =~= Seq::<Pooled<C>>::empty()) by {
        reveal(Seq::filter);
    }
    let after = d.given_back(client, d.generation, timeout, now);
    assert(after.idle =~= seq![Pooled { client, idle_since: d.at(now) }]);
}

/// The connection that came back last is the next one out, with no dial.
pub proof fn the_warmest_connection_is_reused<C>(
    s: PoolState<C>,
    max: usize,
    client: C,
    timeout: u128,
    now: u128,
)
    requires
        s.well_formed(max),
        s.handed_out() > 0,
    ensures
        ({
            let back = s.given_back(client, s.generation, timeout, now);
            back.reserved(max) == Some((s.swept(timeout, now), Some(client)))
        }),
{
    lemma_sweep_spares_the_others(s, max, timeout, now);
    let back = s.given_back(client, s.generation, timeout, now);
    assert(back.idle.drop_last() =~= s.swept(timeout, now).idle);
    assert((back.reserved(max)->0).0 =~= s.swept(timeout, now));
}

/// Nothing that has been idle for the timeout stays pooled, and everything
/// younger does.
pub proof fn a_sweep_closes_what_is_too_old_and_nothing_else<C>(
    s: PoolState<C>,
    timeout: u128,
    now: u128,
    p: Pooled<C>,
)
    ensures
        s.swept(timeout, now).idle.contains(p) <==> s.idle.contains(p) && s.at(now) - p.idle_since
            < timeout,
{
    let f = young(timeout, s.at(now));
    if s.idle.contains(p) && f(p) {
        let i = choose|i: int| 0 <= i < s.idle.len() && s.idle[i] == p;
        s.idle.lemma_filter_contains(f, i);
    }
    if s.swept(timeout, now).idle.contains(p) {
        let i = choose|i: int| 0 <= i < s.idle.filter(f).len() && s.idle.filter(f)[i] == p;
        s.idle.lemma_filter_pred(f, i);
        s.idle.lemma_filter_contains_rev(f, p);
    }
}

/// A slot that was claimed for a dial and given up again leaves the pool as it
/// was, so the cap does not leak.
pub proof fn a_slot_given_up_is_free_again<C>(s: PoolState<C>, max: usize)
    requires
        s.well_formed(max),
        s.idle.len() == 0,
        s.established < max,
    ensures
        s.reserved(max) matches Some((claimed, client)) && client is None && claimed.freed() == s,
{
    assert((s.reserved(max)->0).0.freed() =~= s);
}

proof fn lemma_filter_keeps_order<C>(s: Seq<Pooled<C>>, f: spec_fn(Pooled<C>) -> bool)
    requires
        forall|i: int, j: int|
            0 <= i <= j < s.len() ==> (#[trigger] s[i]).idle_since <= (#[trigger] s[j]).idle_since,
    ensures
        forall|i: int, j: int|
            0 <= i <= j < s.filter(f).len() ==> (#[trigger] s.filter(f)[i]).idle_since <= (
            #[trigger] s.filter(f)[j]).idle_since,
        forall|i: int|
            0 <= i < s.filter(f).len() ==> exists|k: int|
                0 <= k < s.len() && #[trigger] s[k] == #[trigger] s.filter(f)[i],
    decreases s.len(),
{
    reveal(Seq::filter);
    if s.len() > 0 {
        let front = s.drop_last();
        lemma_filter_keeps_order(front, f);
        let kept = s.filter(f);
        let before = front.filter(f);
        assert forall|i: int| 0 <= i < kept.len() implies exists|k: int|
            0 <= k < s.len() && #[trigger] s[k] == #[trigger] kept[i] by {
            if i < before.len() {
                let k = choose|k: int| 0 <= k < front.len() && #[trigger] front[k] == before[i];
                assert(s[k] == kept[i]);
            } else {
                assert(s[s.len() - 1] == kept[i]);
            }
        }
        assert forall|i: int, j: int| 0 <= i <= j < kept.len() implies (
        #[trigger] kept[i]).idle_since <= (#[trigger] kept[j]).idle_since by {
            if j < before.len() {
                assert(before[i].idle_since <= before[j].idle_since);
            } else {
                let k = choose|k: int| 0 <= k < s.len() && #[trigger] s[k] == kept[i];
                assert(s[k].idle_since <= s[s.len() - 1].idle_since);
            }
        }
    }
}

/// Whatever is done with a pool, the cap is kept, every idle connection has a
/// slot, and the idle ones stand in the order in which they came back.
pub proof fn the_cap_is_kept<C>(
    s: PoolState<C>,
    max: usize,
    client: C,
    generation: u64,
    timeout: u128,
    now: u128,
)
    requires
        s.well_formed(max),
    ensures
        s.swept(timeout, now).well_formed(max),
        s.drained().well_formed(max),
        s.reserved(max) matches Some((after, _)) ==> after.well_formed(max),
        s.handed_out() > 0 ==> s.freed().well_formed(max),
        s.handed_out() > 0 ==> s.given_back(client, generation, timeout, now).well_formed(max),
{
    let at = s.at(now);
    let kept = s.idle.filter(young(timeout, at));
    lemma_filter_keeps_order(s.idle, young(timeout, at));
    lemma_sweep_spares_the_others(s, max, timeout, now);
    s.idle.lemma_filter_len(young(timeout, at));
    assert forall|i: int| 0 <= i < kept.len() implies (#[trigger] kept[i]).idle_since <= at by {
        let k = choose|k: int| 0 <= k < s.idle.len() && #[trigger] s.idle[k] == kept[i];
        assert(s.idle[k].idle_since <= s.clock);
    }
}

/// A pool's clock goes by what it is told and never runs backwards.
pub proof fn time_does_not_run_backwards<C>(s: PoolState<C>, timeout: u128, now: u128)
    ensures
        s.swept(timeout, now).clock >= s.clock,
        s.swept(timeout, now).clock >= now,
        s.swept(timeout, now).clock == now || s.swept(timeout, now).clock == s.clock,
{
}

/// A sweep closes each connection that it does not keep and no other, frees as
/// many slots, and counts them.
pub proof fn what_a_sweep_does_not_keep_it_closes<C>(
    s: PoolState<C>,
    max: usize,
    timeout: u128,
    now: u128,
    p: Pooled<C>,
)
    requires
        s.well_formed(max),
        s.idle.contains(p),
    ensures
        s.swept(timeout, now).idle.len() + s.expired(timeout, now).len() == s.idle.len(),
        s.swept(timeout, now).established == s.established - s.expired(timeout, now).len(),
        s.swept(timeout, now).reaped == s.reaped.wrapping_add(
            s.expired(timeout, now).len() as u64,
        ),
        s.swept(timeout, now).clock - p.idle_since >= timeout ==> s.expired(timeout, now).contains(
            p.client,
        ),
        s.swept(timeout, now).clock - p.idle_since < timeout ==> s.swept(
            timeout,
            now,
        ).idle.contains(p),
{
    let at = s.at(now);
    lemma_parted_in_two(s.idle, timeout, at);
    let i = choose|i: int| 0 <= i < s.idle.len() && s.idle[i] == p;
    if at - p.idle_since >= timeout {
        let old = s.idle.filter(old_enough(timeout, at));
        s.idle.lemma_filter_contains(old_enough(timeout, at), i);
        let j = choose|j: int| 0 <= j < old.len() && old[j] == p;
        assert(s.expired(timeout, now)[j] == p.client);
    } else {
        s.idle.lemma_filter_contains(young(timeout, at), i);
    }
}

proof fn lemma_parted_in_two<C>(s: Seq<Pooled<C>>, timeout: u128, at: u128)
    ensures
        s.filter(young(timeout, at)).len() + s.filter(old_enough(timeout, at)).len() == s.len(),
    decreases s.len(),
{
    reveal(Seq::filter);
    if s.len() > 0 {
        lemma_parted_in_two(s.drop_last(), timeout, at);
    }
}

/// A reservation reuses the connection that came back last where any is idle,
/// else takes a free slot, and fails only where every slot is taken by a
/// connection that is in use.
pub proof fn a_reservation_fails_only_at_the_cap<C>(s: PoolState<C>, max: usize)
    requires
        s.well_formed(max),
    ensures
        s.reserved(max) is None <==> s.idle.len() == 0 && s.established == max,
        s.idle.len() > 0 ==> (s.reserved(max) matches Some((after, Some(client))) && client
            == s.idle[s.idle.len() - 1].client && after.idle.len() == s.idle.len() - 1
            && after.established == s.established),
        s.idle.len() == 0 && s.established < max ==> (s.reserved(max) matches Some((after, client))
            && client is None && after.idle.len() == 0 && after.established == s.established + 1),
{
}

/// A wait is counted in whole microseconds.
pub proof fn a_wait_is_counted_in_microseconds(waited: Duration)
    requires
        nanos_in(waited) / 1_000 <= u64::MAX,
    ensures
        whole_micros(waited) * 1_000 <= nanos_in(waited) < (whole_micros(waited) + 1) * 1_000,
{
}

} // verus!

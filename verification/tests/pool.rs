//! Pooled connections to an indexer. A connection is a number here.
use std::time::Duration;

use couchbase_core::address::Address;
use couchbase_core::indexerclient_provider::{
    ClientPool, Connecting, Lease, PoolOptions, Returned, DEFAULT_MAX_CONNECTIONS,
};
use couchbase_core::indexerx::client::ConnectOptions;
use couchbase_core::indexerx::error::{Error, ErrorKind};

fn test_address() -> Address {
    Address {
        host: "127.0.0.1".to_string(),
        port: 9101,
    }
}

fn test_options() -> PoolOptions {
    PoolOptions::new(ConnectOptions::new("user", "pass"))
}

fn test_pool() -> ClientPool<u32> {
    ClientPool::new(test_address(), test_options())
}

/// Pools a connection that nobody dialled, in a slot of its own.
fn put_idle(pool: &mut ClientPool<u32>, client: u32) {
    let lease = dial(pool, client);
    pool.release(lease, 0);
}

fn dial(pool: &mut ClientPool<u32>, client: u32) -> Lease<u32> {
    let reservation = pool.try_reserve().expect("a free slot");
    match reservation.connect() {
        Connecting::Warm(lease) => lease,
        Connecting::Dial(dialing) => pool.dialed(dialing, Ok(client)).expect("a dialled lease"),
    }
}

fn acquire(pool: &mut ClientPool<u32>, now: u128) -> Lease<u32> {
    let (reservation, _closed) = pool.reserve(now);
    match reservation.expect("a slot").connect() {
        Connecting::Warm(lease) => lease,
        Connecting::Dial(_) => panic!("expected a warm connection"),
    }
}

#[test]
fn a_pooled_connection_is_handed_back_out() {
    let mut pool = test_pool();
    put_idle(&mut pool, 7);
    let dialed = pool.stats().dialed;

    let mut lease = acquire(&mut pool, 1);

    assert_eq!(
        *lease.client_mut(),
        7,
        "acquire reused the pooled connection rather than dialling"
    );
    assert_eq!(pool.idle_count(), 0, "and took it out of the pool");
    assert_eq!(
        pool.stats().dialed - dialed,
        0,
        "reuse is the whole point: nothing was dialled"
    );

    pool.release(lease, 2);
    assert_eq!(pool.idle_count(), 1, "released back into the pool");
}

#[test]
fn a_discarded_connection_frees_its_slot_without_being_pooled() {
    let mut pool = test_pool();
    put_idle(&mut pool, 1);
    let lease = acquire(&mut pool, 1);

    assert_eq!(pool.discard(lease), Some(1));

    assert_eq!(pool.idle_count(), 0, "a discarded connection is not pooled");
    assert_eq!(
        pool.stats().established,
        0,
        "but its slot came back, or the cap would leak one per discard"
    );
}

#[test]
fn an_idle_connection_older_than_the_timeout_is_closed() {
    let mut pool: ClientPool<u32> = ClientPool::new(
        test_address(),
        PoolOptions {
            idle_timeout: Duration::ZERO,
            ..test_options()
        },
    );
    put_idle(&mut pool, 1);

    let (reservation, closed) = pool.reserve(0);
    assert_eq!(closed, vec![1]);
    pool.abandon(reservation.expect("a slot"));

    assert_eq!(pool.idle_count(), 0);
    assert_eq!(pool.stats().reaped, 1, "and it was counted as reaped");
}

#[test]
fn a_drained_pool_does_not_hand_back_an_old_connection() {
    let mut pool = test_pool();
    put_idle(&mut pool, 1);
    assert_eq!(pool.idle_count(), 1);

    assert_eq!(pool.drain(), vec![1]);

    assert_eq!(
        pool.idle_count(),
        0,
        "a drained pool must not serve a connection dialled with the old credentials"
    );
}

#[test]
fn a_lease_taken_before_a_drain_does_not_return_its_connection() {
    let mut pool = test_pool();
    put_idle(&mut pool, 1);
    let lease = acquire(&mut pool, 1);

    pool.drain();
    let (returned, closed) = pool.release(lease, 2);

    assert_eq!((returned, closed), (Returned::Closed, vec![1]));
    assert_eq!(
        pool.idle_count(),
        0,
        "the connection was claimed under the credentials the drain replaced"
    );
    assert_eq!(
        pool.stats().established,
        0,
        "and its slot came back rather than being held by a socket nobody may use"
    );
}

fn capped_pool() -> ClientPool<u32> {
    ClientPool::new(
        test_address(),
        PoolOptions {
            max_connections: 1,
            acquire_timeout: Duration::from_millis(200),
            ..test_options()
        },
    )
}

#[test]
fn a_pool_at_its_cap_reports_backpressure_rather_than_waiting_forever() {
    let mut pool = capped_pool();
    put_idle(&mut pool, 1);
    let _held = acquire(&mut pool, 1);

    let (second, _closed) = pool.reserve(2);
    assert!(second.is_none(), "a second connection is over the cap");
    pool.begin_wait();
    assert_eq!(pool.stats().waiting, 1);
    let Err(err) = pool.end_wait(Duration::from_micros(200_500), None) else {
        panic!("nothing came free");
    };

    assert!(matches!(
        err.kind(),
        ErrorKind::PoolExhausted { endpoint, waited }
            if endpoint == &test_address().message() && *waited == Duration::from_micros(200_500)
    ));
    let stats = pool.stats();
    assert_eq!(stats.timeouts, 1, "and is counted, or it cannot be sized");
    assert_eq!(stats.waits, 1, "the wait itself is counted too");
    assert_eq!(stats.wait_total, Duration::from_micros(200_500));
    assert!(stats.wait_total > Duration::ZERO);
    assert_eq!(stats.waiting, 0, "and nobody is left parked afterwards");
}

#[test]
fn a_waiter_at_the_cap_is_served_by_a_returned_connection() {
    let mut pool = capped_pool();
    put_idle(&mut pool, 9);
    let dialed = pool.stats().dialed;
    let held = acquire(&mut pool, 1);

    assert!(pool.reserve(2).0.is_none());
    pool.begin_wait();
    assert_eq!(pool.release(held, 3).0, Returned::Pooled);
    let served = pool.try_reserve();
    let Ok(reservation) = pool.end_wait(Duration::from_millis(10), served) else {
        panic!("the waiter got backpressure");
    };
    let Connecting::Warm(mut lease) = reservation.connect() else {
        panic!("the waiter got a fresh dial");
    };

    assert_eq!(
        *lease.client_mut(),
        9,
        "and it is the connection that was returned, not a fresh dial"
    );
    assert_eq!(pool.stats().dialed, dialed, "nothing was dialled");
    assert_eq!(pool.stats().timeouts, 0);
}

#[test]
fn a_connection_claimed_after_a_drain_is_poolable_again() {
    let mut pool = test_pool();
    pool.drain();
    put_idle(&mut pool, 1);

    let lease = acquire(&mut pool, 1);
    assert_eq!(pool.release(lease, 2).0, Returned::Pooled);

    assert_eq!(pool.idle_count(), 1);
}

#[test]
fn the_warmest_connection_goes_out_first_and_the_coldest_is_swept() {
    let mut pool: ClientPool<u32> = ClientPool::new(
        test_address(),
        PoolOptions {
            idle_timeout: Duration::from_nanos(100),
            ..test_options()
        },
    );
    let first = dial(&mut pool, 1);
    let second = dial(&mut pool, 2);
    let third = dial(&mut pool, 3);
    pool.release(first, 10);
    pool.release(second, 60);
    pool.release(third, 90);
    assert_eq!(pool.sweep_idle(109), Vec::<u32>::new());
    assert_eq!(pool.sweep_idle(159), vec![1]);
    assert_eq!(pool.sweep_idle(50), Vec::<u32>::new(), "time runs forwards");
    assert_eq!(*acquire(&mut pool, 159).client_mut(), 3);
    assert_eq!(pool.stats().reaped, 1);
    assert_eq!(pool.stats().established, 2);
}

#[test]
fn a_dial_that_fails_frees_its_slot() {
    let mut pool = capped_pool();
    let (reservation, _) = pool.reserve(0);
    let Connecting::Dial(dialing) = reservation.expect("a slot").connect() else {
        panic!("nothing is warm");
    };
    assert_eq!(pool.handed_out(), 1);
    let outcome = pool.dialed(dialing, Err(Error::new_unexpected_eof_error()));
    assert!(outcome.is_err());
    assert_eq!(pool.handed_out(), 0);
    assert_eq!(pool.stats().dialed, 0);
    assert!(pool.try_reserve().is_some());
}

#[test]
fn a_scan_has_the_connection_and_the_lease_the_slot() {
    let mut pool = capped_pool();
    let mut lease = dial(&mut pool, 5);
    let mut stream = lease.start_scan();
    assert!(!lease.has_client());
    assert_eq!(stream.client_mut(), Some(&mut 5));
    let (returned, closed) = pool.release(lease, 1);
    assert_eq!((returned, closed.len()), (Returned::Closed, 0));
    assert_eq!(pool.stats().established, 0);

    let mut lease = dial(&mut pool, 6);
    drop(lease.start_scan());
    lease.restore(6);
    assert_eq!(pool.release(lease, 2).0, Returned::Pooled);
    assert_eq!(pool.idle_count(), 1);
}

#[test]
fn the_defaults_are_a_protection_limit_and_half_a_minute() {
    let pool = test_pool();
    assert_eq!(pool.options().max_connections, DEFAULT_MAX_CONNECTIONS);
    assert_eq!(pool.options().idle_timeout, Duration::from_secs(30));
    assert_eq!(pool.options().acquire_timeout, Duration::from_secs(30));
    assert_eq!(pool.sweep_every(), 15_000_000_000);
    assert_eq!(pool.endpoint(), &test_address());
    let quick: ClientPool<u32> = ClientPool::new(
        test_address(),
        PoolOptions {
            idle_timeout: Duration::from_nanos(10),
            ..test_options()
        },
    );
    assert_eq!(quick.sweep_every(), 1_000_000_000);
}

#[test]
fn a_slot_that_is_given_up_is_free_again() {
    let mut pool = capped_pool();
    let (reservation, _) = pool.reserve(0);
    assert_eq!(pool.abandon(reservation.expect("a slot")), None);
    assert_eq!(pool.handed_out(), 0);

    let (reservation, _) = pool.reserve(1);
    let Connecting::Dial(dialing) = reservation.expect("a slot").connect() else {
        panic!("nothing is warm");
    };
    assert!(pool.try_reserve().is_none(), "the cap is one");
    pool.abandon_dial(dialing);
    assert_eq!(pool.handed_out(), 0);
    assert!(pool.try_reserve().is_some());
}

use pajamax::balancer::{ConnectionBalancer, ConnectionLimit};
use pajamax::config::Config;

#[test]
fn connections_go_round() {
    let mut balancer = ConnectionBalancer::new();
    let first = balancer.register();
    let second = balancer.register();
    assert_eq!(balancer.worker_count(), 2);
    for i in 0..4u64 {
        balancer.dispatch(i);
    }
    assert_eq!(first.try_recv().ok(), Some(0));
    assert_eq!(first.try_recv().ok(), Some(2));
    assert!(first.try_recv().is_err());
    assert_eq!(second.try_recv().ok(), Some(1));
    assert_eq!(second.try_recv().ok(), Some(3));
    assert!(second.try_recv().is_err());
}

#[test]
fn turns_of_three_workers() {
    let mut balancer: ConnectionBalancer<u8> = ConnectionBalancer::new();
    let _workers = vec![balancer.register(), balancer.register(), balancer.register()];
    let turns: Vec<usize> = (0..7).map(|_| balancer.next_worker()).collect();
    assert_eq!(turns, vec![0, 1, 2, 0, 1, 2, 0]);
}

#[test]
fn a_worker_that_is_gone_does_not_hold_up_the_others() {
    let mut balancer = ConnectionBalancer::new();
    drop(balancer.register());
    let second = balancer.register();
    for c in ['a', 'b', 'c', 'd'] {
        balancer.dispatch(c);
    }
    // what was for the first worker goes to no other
    assert_eq!(second.try_recv().ok(), Some('b'));
    assert_eq!(second.try_recv().ok(), Some('d'));
    assert!(second.try_recv().is_err());
}

#[test]
fn the_limit_of_connections() {
    let config = Config { max_concurrent_connections: 2, max_concurrent_streams: 1 };
    let mut limit = ConnectionLimit::new();
    assert!(limit.take_on(&config));
    assert!(limit.take_on(&config));
    assert!(!limit.take_on(&config));
    limit.release();
    assert!(limit.take_on(&config));
    assert!(!limit.take_on(&config));
}

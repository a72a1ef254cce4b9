//! The deadlock detector.

use parking_lot::deadlock::cycles::{normalize_cycle, thread_cycles, Visit, RESOURCE, THREAD};
use parking_lot::deadlock::resources::DeadlockData;
use parking_lot::deadlock::wait_graph::{check_deadlock, WaitGraph};
use parking_lot::lot::bucket::{Bucket, ThreadData};
use parking_lot::lot::types::{ParkToken, UnparkToken};

/// Parks threads, each with a number, the key that it waits on, and the resources that it owns.
fn bucket(threads: &[(usize, usize, &[usize])], with_timeout: bool) -> Bucket {
    let mut bucket = Bucket::new();
    for (thread, key, resources) in threads {
        let mut data = ThreadData::new(*thread);
        for resource in resources.iter() {
            data.deadlock_data.acquire_resource(*resource);
        }
        bucket.park(data, *key, || true, ParkToken(0), with_timeout);
    }
    bucket
}

fn slow(bucket: &Bucket) -> WaitGraph {
    let mut graph = WaitGraph::new(10);
    graph.add_bucket_slow(bucket);
    graph
}

fn fast(bucket: &Bucket) -> WaitGraph {
    let mut graph = WaitGraph::new(10);
    graph.add_bucket_fast(bucket);
    graph
}

fn check(bucket: &Bucket) -> Vec<Vec<usize>> {
    check_deadlock(&fast(bucket), || slow(bucket))
}

#[test]
fn resources_are_released_last_first() {
    let mut data = DeadlockData::new();
    assert!(data.resources.is_empty());
    assert!(!data.deadlocked);
    for key in [1, 2, 3, 2, 4] {
        data.acquire_resource(key);
    }
    data.release_resource(2);
    assert_eq!(data.resources, vec![1, 2, 3, 4]);
    assert!(data.owns(1));
    data.release_resource(1);
    assert_eq!(data.resources, vec![4, 2, 3]);
    assert!(!data.owns(1));
    assert!(!data.owns(9));
}

#[test]
fn releasing_undoes_acquiring() {
    let mut data = DeadlockData::new();
    data.acquire_resource(1);
    data.acquire_resource(2);
    data.acquire_resource(1);
    data.release_resource(1);
    assert_eq!(data.resources, vec![1, 2]);
}

#[test]
fn cycles_start_with_the_smallest() {
    assert_eq!(normalize_cycle(&[]), vec![]);
    assert_eq!(normalize_cycle(&[5]), vec![5]);
    assert_eq!(normalize_cycle(&[3, 1, 2]), vec![1, 2, 3]);
    assert_eq!(normalize_cycle(&[1, 2, 3]), vec![1, 2, 3]);
    assert_eq!(normalize_cycle(&[2, 3, 1]), vec![1, 2, 3]);
    assert_eq!(normalize_cycle(&[2, 1, 3, 1]), vec![1, 3, 1, 2]);
}

#[test]
fn cycles_are_closed_by_edges_back() {
    let visits = vec![
        Visit::Discover((THREAD, 7)),
        Visit::TreeEdge((THREAD, 7), (RESOURCE, 1)),
        Visit::Discover((RESOURCE, 1)),
        Visit::TreeEdge((RESOURCE, 1), (THREAD, 9)),
        Visit::Discover((THREAD, 9)),
        Visit::TreeEdge((THREAD, 9), (RESOURCE, 2)),
        Visit::Discover((RESOURCE, 2)),
        Visit::TreeEdge((RESOURCE, 2), (THREAD, 5)),
        Visit::Discover((THREAD, 5)),
        Visit::BackEdge((THREAD, 5), (THREAD, 9)),
        Visit::BackEdge((THREAD, 5), (THREAD, 9)),
        Visit::CrossForwardEdge((THREAD, 5), (THREAD, 3)),
        Visit::Finish((THREAD, 5)),
        Visit::BackEdge((RESOURCE, 2), (THREAD, 7)),
        Visit::Finish((RESOURCE, 2)),
        Visit::BackEdge((THREAD, 9), (RESOURCE, 1)),
        Visit::Finish((THREAD, 9)),
    ];
    assert_eq!(
        thread_cycles(&visits),
        vec![vec![5, 9], vec![7, 9], vec![9]]
    );
}

#[test]
fn no_deadlock_without_a_circle() {
    let b = bucket(&[(100, 1, &[2]), (200, 2, &[]), (300, 1, &[3])], false);
    assert!(!fast(&b).check_wait_graph_fast());
    assert_eq!(check(&b), Vec::<Vec<usize>>::new());
    // The second pass is not even tried
    let graph = fast(&b);
    assert_eq!(
        check_deadlock(&graph, || unreachable!()),
        Vec::<Vec<usize>>::new()
    );
}

#[test]
fn two_threads_wait_for_each_other() {
    let b = bucket(&[(200, 1, &[2]), (100, 2, &[1])], false);
    assert!(fast(&b).check_wait_graph_fast());
    assert_eq!(check(&b), vec![vec![100, 200]]);
}

#[test]
fn a_thread_waits_for_itself() {
    let b = bucket(&[(100, 1, &[1])], false);
    assert_eq!(check(&b), vec![vec![100]]);
}

#[test]
fn three_threads_in_a_circle() {
    let b = bucket(&[(300, 1, &[3]), (100, 2, &[1]), (200, 3, &[2])], false);
    assert_eq!(check(&b), vec![vec![100, 200, 300]]);
}

#[test]
fn separate_deadlocks_are_reported_separately() {
    let b = bucket(
        &[
            (100, 1, &[2]),
            (200, 2, &[1]),
            (300, 3, &[4]),
            (400, 4, &[3]),
        ],
        false,
    );
    let mut cycles = check(&b);
    cycles.sort();
    assert_eq!(cycles, vec![vec![100, 200], vec![300, 400]]);
}

#[test]
fn buckets_add_up() {
    let a = bucket(&[(100, 1, &[2])], false);
    let b = bucket(&[(200, 2, &[1])], false);
    let mut graph = WaitGraph::new(2);
    graph.add_bucket_slow(&a);
    assert_eq!(graph.graph_cycles(), Vec::<Vec<usize>>::new());
    graph.add_bucket_slow(&b);
    assert_eq!(graph.graph_cycles(), vec![vec![100, 200]]);
}

#[test]
fn threads_with_a_timeout_are_no_deadlock() {
    let b = bucket(&[(200, 1, &[2]), (100, 2, &[1])], true);
    assert!(!fast(&b).check_wait_graph_fast());
    assert_eq!(check(&b), Vec::<Vec<usize>>::new());
}

#[test]
fn deadlocks_are_reported_once() {
    let mut b = bucket(&[(200, 1, &[2]), (100, 2, &[1])], false);
    let cycles = check(&b);
    assert_eq!(cycles, vec![vec![100, 200]]);
    b.park(ThreadData::new(300), 1, || true, ParkToken(0), false);
    b.mark_reported(&cycles);
    assert!(b.get(0).deadlock_data.deadlocked);
    assert!(b.get(1).deadlock_data.deadlocked);
    assert!(!b.get(2).deadlock_data.deadlocked);
    assert_eq!(b.get(0).deadlock_data.resources, vec![2]);
    assert_eq!(check(&b), Vec::<Vec<usize>>::new());

    // Another deadlock is reported, and that one is not
    let mut more = ThreadData::new(400);
    more.deadlock_data.acquire_resource(7);
    b.park(more, 7, || true, ParkToken(0), false);
    assert_eq!(check(&b), vec![vec![400]]);
}

#[test]
fn a_cycle_is_found_from_outside() {
    // 64 waits for 128, which waits for 192, which waits for 128
    let b = bucket(&[(64, 1, &[]), (128, 2, &[1]), (192, 1, &[2])], false);
    assert_eq!(check(&b), vec![vec![128, 192]]);
}

#[test]
fn the_note_stays_with_a_thread_that_parks_anew() {
    let mut b = bucket(&[(200, 1, &[2]), (100, 2, &[1])], false);
    let cycles = check(&b);
    assert_eq!(cycles, vec![vec![100, 200]]);
    b.mark_reported(&cycles);
    let left = b.unpark_one(2, |_| UnparkToken(0));
    assert_eq!(left.result.unparked_threads, 1);
    let mut again = ThreadData::new(100);
    again.deadlock_data.acquire_resource(1);
    again.deadlock_data.deadlocked = true;
    b.park(again, 2, || true, ParkToken(0), false);
    assert!(b.get(1).deadlock_data.deadlocked);
    assert_eq!(check(&b), Vec::<Vec<usize>>::new());
}

#[test]
fn every_deadlock_is_reported_where_owners_are_single() {
    let b = bucket(
        &[
            (4, 5, &[6]),
            (9, 10, &[]),
            (3, 10, &[30]),
            (1, 30, &[20]),
            (5, 6, &[5]),
            (2, 20, &[10]),
            (7, 7, &[7]),
        ],
        false,
    );
    let mut found = check(&b);
    found.sort();
    assert_eq!(found, vec![vec![1, 3, 2], vec![4, 5], vec![7]]);
}

#[test]
fn every_deadlock_is_met() {
    // 2 and 3 both own what 1 waits for, and both wait for what 1 owns; 4 and 5 wait for each
    // other
    let b = bucket(
        &[
            (1, 1, &[2]),
            (2, 2, &[1]),
            (3, 2, &[1]),
            (4, 5, &[6]),
            (5, 6, &[5]),
        ],
        false,
    );
    let found = check(&b);
    for deadlock in [[1, 2], [1, 3], [4, 5]] {
        assert!(deadlock
            .iter()
            .any(|thread| found.iter().any(|cycle| cycle.contains(thread))));
    }
}

#[test]
fn no_thread_is_named_twice() {
    // Two ways lead back to 10
    let b = bucket(
        &[(30, 1, &[4]), (20, 4, &[2]), (10, 2, &[1]), (40, 1, &[3])],
        false,
    );
    assert_eq!(check(&b), vec![vec![10, 20, 30]]);
}

#[test]
fn resources_of_queued_threads_change() {
    let mut b = bucket(&[(100, 1, &[2]), (200, 2, &[1])], false);
    assert_eq!(check(&b), vec![vec![100, 200]]);
    assert_eq!(b.release_resource(100, 2), Some(true));
    assert_eq!(b.release_resource(100, 2), Some(false));
    assert_eq!(b.release_resource(300, 2), None);
    assert_eq!(check(&b), Vec::<Vec<usize>>::new());
    assert!(b.acquire_resource(100, 2));
    assert!(!b.acquire_resource(300, 2));
    assert_eq!(check(&b), vec![vec![100, 200]]);
    assert_eq!(b.get(1).deadlock_data.resources, vec![1]);
}

#[test]
fn fast_pass_does_not_tell_threads_and_resources_apart() {
    // Thread 2 waits for resource 1, and thread 1 for resource 2
    let b = bucket(&[(1, 2, &[]), (2, 1, &[])], false);
    assert!(fast(&b).check_wait_graph_fast());
    assert!(!slow(&b).check_wait_graph_fast());
    assert_eq!(check(&b), Vec::<Vec<usize>>::new());
}

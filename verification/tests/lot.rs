//! The parking lot: queues, tables and locks.

use parking_lot::lot::bucket::{Bucket, ThreadData};
use parking_lot::lot::hash_table::{hash, is_big_enough, HashTable, LOAD_FACTOR};
use parking_lot::lot::locking::{lock_bucket, lock_bucket_pair};
use parking_lot::lot::parking::{ParkEvent, ParkOp, Parking};
use parking_lot::lot::types::{
    FilterOp, ParkResult, ParkToken, RequeueOp, UnparkResult, UnparkToken, Wake,
};

/// Parks threads with the given numbers and keys. Their park tokens are their numbers.
fn bucket(threads: &[(usize, usize)]) -> Bucket {
    let mut bucket = Bucket::new();
    for (thread, key) in threads {
        let data = ThreadData::new(*thread);
        let result = bucket.park(data, *key, || true, ParkToken(*thread), false);
        assert_eq!(result, None);
    }
    bucket
}

fn entries(bucket: &Bucket) -> Vec<(usize, usize)> {
    (0..bucket.len())
        .map(|i| (bucket.get(i).thread, bucket.get(i).key))
        .collect()
}

fn result(unparked: usize, requeued: usize, more: bool) -> UnparkResult {
    let mut result = UnparkResult::default();
    result.unparked_threads = unparked;
    result.requeued_threads = requeued;
    result.have_more_threads = more;
    result
}

#[test]
fn tokens_default_to_zero() {
    assert_eq!(UnparkToken::default(), UnparkToken(0));
    assert_eq!(ParkToken::default(), ParkToken(0));
    assert_eq!(UnparkResult::default(), result(0, 0, false));
    assert!(ParkResult::Unparked(UnparkToken(3)).is_unparked());
    assert!(!ParkResult::Invalid.is_unparked());
    assert!(!ParkResult::TimedOut.is_unparked());
}

#[test]
fn park_appends_if_valid() {
    let mut b = Bucket::new();
    assert!(b.is_empty());
    let invalid = b.park(ThreadData::new(1), 8, || false, ParkToken(5), true);
    assert_eq!(invalid, Some(ParkResult::Invalid));
    assert!(b.is_empty());
    assert_eq!(b.park(ThreadData::new(1), 8, || true, ParkToken(5), true), None);
    assert_eq!(b.park(ThreadData::new(2), 16, || true, ParkToken(6), false), None);
    assert_eq!(entries(&b), vec![(1, 8), (2, 16)]);
    assert_eq!(b.get(0).park_token, ParkToken(5));
    assert!(b.get(0).parked_with_timeout);
    assert_eq!(b.get(1).park_token, ParkToken(6));
    assert!(!b.get(1).parked_with_timeout);
}

#[test]
fn unpark_one_takes_the_oldest() {
    let mut b = bucket(&[(1, 8), (2, 16), (3, 16), (4, 8)]);
    let mut seen = None;
    let r = b.unpark_one(16, |result| {
        seen = Some(result);
        UnparkToken(7)
    });
    assert_eq!(seen, Some(result(1, 0, true)));
    assert_eq!(r.result, result(1, 0, true));
    assert_eq!(
        r.wake,
        Some(Wake {
            thread: 2,
            token: UnparkToken(7)
        })
    );
    assert_eq!(entries(&b), vec![(1, 8), (3, 16), (4, 8)]);

    let r = b.unpark_one(16, |_| UnparkToken(0));
    assert_eq!(r.result, result(1, 0, false));
    assert_eq!(r.wake.map(|w| w.thread), Some(3));

    let mut seen = None;
    let r = b.unpark_one(16, |result| {
        seen = Some(result);
        UnparkToken(0)
    });
    assert_eq!(seen, Some(result(0, 0, false)));
    assert_eq!(r.result, result(0, 0, false));
    assert_eq!(r.wake, None);
    assert_eq!(entries(&b), vec![(1, 8), (4, 8)]);
}

#[test]
fn threads_are_unparked_in_order() {
    let mut b = Bucket::new();
    for thread in 0..100 {
        b.park(ThreadData::new(thread), 8, || true, ParkToken(0), false);
    }
    for thread in 0..50 {
        let r = b.unpark_one(8, |_| UnparkToken(0));
        assert_eq!(r.wake.map(|w| w.thread), Some(thread));
    }
    let rest = b.unpark_all(8, UnparkToken(0));
    assert_eq!(rest.threads, (50..100).collect::<Vec<usize>>());
    assert!(b.is_empty());
}

#[test]
fn unpark_all_takes_all_of_a_key() {
    let mut b = bucket(&[(1, 8), (2, 16), (3, 8), (4, 24), (5, 8)]);
    let r = b.unpark_all(8, UnparkToken(9));
    assert_eq!(r.threads, vec![1, 3, 5]);
    assert_eq!(r.token, UnparkToken(9));
    assert_eq!(entries(&b), vec![(2, 16), (4, 24)]);
    assert_eq!(b.unpark_all(8, UnparkToken(9)).threads, vec![]);
}

#[test]
fn requeue_aborts() {
    let mut b = bucket(&[(1, 8), (2, 8)]);
    let mut to = bucket(&[(9, 16)]);
    let mut called = false;
    let r = b.unpark_requeue(Some(&mut to), 8, 16, || RequeueOp::Abort, |_, _| {
        called = true;
        UnparkToken(0)
    });
    assert!(!called);
    assert_eq!(r.result, result(0, 0, true));
    assert_eq!(r.wake, None);
    assert_eq!(entries(&b), vec![(1, 8), (2, 8)]);
    assert_eq!(entries(&to), vec![(9, 16)]);

    // Nobody waits on this key
    let r = b.unpark_requeue(Some(&mut to), 24, 16, || RequeueOp::Abort, |_, _| {
        unreachable!()
    });
    assert_eq!(r.result, result(0, 0, false));
}

#[test]
fn requeue_wakes_one_and_moves_the_rest() {
    let mut b = bucket(&[(1, 8), (2, 24), (3, 8), (4, 8)]);
    let mut to = bucket(&[(9, 16)]);
    let mut seen = None;
    let r = b.unpark_requeue(
        Some(&mut to),
        8,
        16,
        || RequeueOp::UnparkOneRequeueRest,
        |op, result| {
            seen = Some((op, result));
            UnparkToken(5)
        },
    );
    assert_eq!(
        seen,
        Some((RequeueOp::UnparkOneRequeueRest, result(1, 2, false)))
    );
    assert_eq!(r.result, result(1, 2, false));
    assert_eq!(
        r.wake,
        Some(Wake {
            thread: 1,
            token: UnparkToken(5)
        })
    );
    assert_eq!(entries(&b), vec![(2, 24)]);
    assert_eq!(entries(&to), vec![(9, 16), (3, 16), (4, 16)]);
    assert_eq!(to.get(1).park_token, ParkToken(3));
}

#[test]
fn requeue_all_wakes_none() {
    let mut b = bucket(&[(1, 8), (2, 24), (3, 8)]);
    let mut to = Bucket::new();
    let r = b.unpark_requeue(Some(&mut to), 8, 16, || RequeueOp::RequeueAll, |_, _| {
        UnparkToken(5)
    });
    assert_eq!(r.result, result(0, 2, false));
    assert_eq!(r.wake, None);
    assert_eq!(entries(&b), vec![(2, 24)]);
    assert_eq!(entries(&to), vec![(1, 16), (3, 16)]);
}

#[test]
fn requeue_single_threads() {
    let mut b = bucket(&[(1, 8), (2, 24), (3, 8)]);
    let mut to = Bucket::new();
    let r = b.unpark_requeue(Some(&mut to), 8, 16, || RequeueOp::RequeueOne, |_, _| {
        UnparkToken(5)
    });
    assert_eq!(r.result, result(0, 1, true));
    assert_eq!(r.wake, None);
    assert_eq!(entries(&b), vec![(2, 24), (3, 8)]);
    assert_eq!(entries(&to), vec![(1, 16)]);

    let r = b.unpark_requeue(Some(&mut to), 8, 16, || RequeueOp::UnparkOne, |_, _| {
        UnparkToken(6)
    });
    assert_eq!(r.result, result(1, 0, false));
    assert_eq!(r.wake.map(|w| (w.thread, w.token)), Some((3, UnparkToken(6))));
    assert_eq!(entries(&b), vec![(2, 24)]);
    assert_eq!(entries(&to), vec![(1, 16)]);

    let r = b.unpark_requeue(Some(&mut to), 8, 16, || RequeueOp::UnparkOne, |_, _| {
        UnparkToken(6)
    });
    assert_eq!(r.result, result(0, 0, false));
}

#[test]
fn requeue_within_a_bucket() {
    let mut b = bucket(&[(1, 8), (2, 16), (3, 8), (4, 8)]);
    let r = b.unpark_requeue(None, 8, 16, || RequeueOp::UnparkOneRequeueRest, |_, _| {
        UnparkToken(5)
    });
    assert_eq!(r.result, result(1, 2, false));
    assert_eq!(r.wake.map(|w| w.thread), Some(1));
    assert_eq!(entries(&b), vec![(2, 16), (3, 16), (4, 16)]);
}

#[test]
fn filter_chooses_by_token() {
    let mut b = bucket(&[(1, 8), (2, 8), (3, 16), (4, 8), (5, 8), (6, 8)]);
    let mut asked = Vec::new();
    let r = b.unpark_filter(
        8,
        |token| {
            asked.push(token.0);
            match token.0 {
                1 | 4 => FilterOp::Unpark,
                5 => FilterOp::Stop,
                _ => FilterOp::Skip,
            }
        },
        |result| UnparkToken(result.unparked_threads),
    );
    assert_eq!(asked, vec![1, 2, 4, 5]);
    assert_eq!(r.result, result(2, 0, true));
    assert_eq!(r.threads, vec![1, 4]);
    assert_eq!(r.token, UnparkToken(2));
    assert_eq!(entries(&b), vec![(2, 8), (3, 16), (5, 8), (6, 8)]);

    let r = b.unpark_filter(8, |_| FilterOp::Unpark, |_| UnparkToken(1));
    assert_eq!(r.result, result(3, 0, false));
    assert_eq!(r.threads, vec![2, 5, 6]);
    assert_eq!(entries(&b), vec![(3, 16)]);
}

#[test]
fn filter_may_unpark_more_than_fit_inline() {
    let mut b = Bucket::new();
    for thread in 0..20 {
        b.park(ThreadData::new(thread), 8, || true, ParkToken(0), false);
    }
    let r = b.unpark_filter(8, |_| FilterOp::Unpark, |_| UnparkToken(1));
    assert_eq!(r.result, result(20, 0, false));
    assert_eq!(r.threads, (0..20).collect::<Vec<usize>>());
}

#[test]
fn timing_out_leaves_the_queue() {
    let mut b = bucket(&[(1, 8), (2, 16), (3, 8), (4, 8)]);
    let mut told = None;
    let r = b.park_timed_out(3, 8, true, UnparkToken(0), |key, last| {
        told = Some((key, last));
    });
    assert_eq!(r, ParkResult::TimedOut);
    assert_eq!(told, Some((8, false)));
    assert_eq!(entries(&b), vec![(1, 8), (2, 16), (4, 8)]);

    let mut told = None;
    b.park_timed_out(2, 16, true, UnparkToken(0), |key, last| {
        told = Some((key, last));
    });
    assert_eq!(told, Some((16, true)));

    b.park_timed_out(1, 8, true, UnparkToken(0), |_, last| assert!(!last));
    b.park_timed_out(4, 8, true, UnparkToken(0), |_, last| assert!(last));
    assert!(b.is_empty());
}

#[test]
fn unparked_before_timing_out() {
    let mut b = bucket(&[(1, 8)]);
    let r = b.park_timed_out(2, 8, false, UnparkToken(4), |_, _| unreachable!());
    assert_eq!(r, ParkResult::Unparked(UnparkToken(4)));
    assert_eq!(entries(&b), vec![(1, 8)]);
}

#[test]
fn parking_without_timeout() {
    let mut b = Bucket::new();
    let mut parking = Parking::park(8, ParkToken(3), false);
    assert_eq!(parking.op, ParkOp::Enter(8));
    let op = parking.enter(&mut b, ThreadData::new(1), || true);
    assert_eq!(op, ParkOp::BeforeSleep);
    assert_eq!(entries(&b), vec![(1, 8)]);
    assert_eq!(b.get(0).park_token, ParkToken(3));
    assert_eq!(parking.next(ParkEvent::Done), ParkOp::Sleep);
    assert_eq!(parking.next(ParkEvent::Unparked), ParkOp::OnUnpark);
    assert_eq!(parking.next(ParkEvent::Done), ParkOp::ReadToken);
    assert_eq!(
        parking.next(ParkEvent::Token(UnparkToken(6))),
        ParkOp::Return(ParkResult::Unparked(UnparkToken(6)))
    );
}

#[test]
fn parking_is_refused() {
    let mut b = Bucket::new();
    let mut parking = Parking::park(8, ParkToken(3), false);
    let op = parking.enter(&mut b, ThreadData::new(1), || false);
    assert_eq!(op, ParkOp::Return(ParkResult::Invalid));
    assert!(b.is_empty());
}

#[test]
fn parking_with_timeout() {
    let mut b = Bucket::new();
    let mut parking = Parking::park(8, ParkToken(3), true);
    parking.enter(&mut b, ThreadData::new(1), || true);
    assert!(b.get(0).parked_with_timeout);
    assert_eq!(parking.next(ParkEvent::Done), ParkOp::SleepUntil);
    let asleep = parking;

    // Unparked in time
    assert_eq!(parking.next(ParkEvent::Unparked), ParkOp::ReadToken);

    // Unparked after the timeout, but before the thread could leave
    let mut parking = asleep;
    assert_eq!(parking.next(ParkEvent::TimedOut), ParkOp::Leave);
    let op = parking.leave(&mut b, 1, 8, false, UnparkToken(2), |_, _| unreachable!());
    assert_eq!(op, ParkOp::Return(ParkResult::Unparked(UnparkToken(2))));
    assert_eq!(b.len(), 1);

    // Not unparked at all
    let mut parking = asleep;
    parking.next(ParkEvent::TimedOut);
    let mut told = None;
    let op = parking.leave(&mut b, 1, 8, true, UnparkToken(2), |key, last| {
        told = Some((key, last));
    });
    assert_eq!(op, ParkOp::Return(ParkResult::TimedOut));
    assert_eq!(told, Some((8, true)));
    assert!(b.is_empty());
}

#[test]
fn hash_takes_the_top_bits() {
    if usize::BITS == 64 {
        assert_eq!(hash(0, 4), 0);
        assert_eq!(hash(1, 4), 9);
        assert_eq!(hash(0x1000, 4), 7);
        assert_eq!(hash(0x1234, 6), 2);
        assert_eq!(hash(usize::MAX, 8), 97);
        assert_eq!(hash(0x7fff_0010, 10), 165);
        assert_eq!(hash(8, 1), 1);
        assert_eq!(hash(1, 64), 11400714819323198485);
    }
}

#[test]
fn table_has_room_for_the_threads() {
    assert_eq!(LOAD_FACTOR, 3);
    for (threads, bits) in [(1, 2), (2, 3), (3, 4), (5, 4), (6, 5), (100, 9)] {
        let table = HashTable::new(threads);
        assert_eq!(table.hash_bits, bits);
        assert_eq!(table.entries.len(), 1 << bits);
        assert!(table.entries.iter().all(|b| b.is_empty()));
        assert!(is_big_enough(table.entries.len(), threads));
    }
    assert!(is_big_enough(9, 3));
    assert!(!is_big_enough(8, 3));
}

#[test]
fn growing_keeps_the_queues() {
    let mut table = HashTable::new(1);
    for thread in 0..40 {
        let key = 8 + 8 * (thread % 5);
        let index = hash(key, table.hash_bits);
        let data = ThreadData::new(thread);
        table.entries[index].park(data, key, || true, ParkToken(thread), false);
    }
    let mut grown = HashTable::rehash(table.entries, 40);
    assert_eq!(grown.hash_bits, 7);
    for number in 0..5 {
        let key = 8 + 8 * number;
        let index = hash(key, grown.hash_bits);
        let waiting = grown.entries[index].unpark_all(key, UnparkToken(0)).threads;
        assert_eq!(waiting, (0..8).map(|i| number + 5 * i).collect::<Vec<usize>>());
    }
    assert!(grown.entries.iter().all(|b| b.is_empty()));
}

#[test]
fn rehashing_appends() {
    let mut table = HashTable::new(3);
    let index = hash(8, table.hash_bits);
    table.entries[index].park(ThreadData::new(1), 8, || true, ParkToken(0), false);
    table.rehash_bucket_into(bucket(&[(2, 8), (3, 40), (4, 8)]));
    assert_eq!(entries(&table.entries[index]), vec![(1, 8), (2, 8), (4, 8)]);
    let other = hash(40, table.hash_bits);
    assert_eq!(entries(&table.entries[other]), vec![(3, 40)]);
}

#[test]
fn bucket_locks_are_checked() {
    let target = lock_bucket(8, 0xa000, 4);
    assert_eq!(target.index, hash(8, 4));
    assert!(target.is_current(0xa000));
    assert!(!target.is_current(0xb000));
    assert!(target.is_current_for(0xa000, 8));
    assert!(!target.is_current_for(0xa000, 16));
    assert!(!target.is_current_for(0xb000, 8));
}

#[test]
fn bucket_pairs_are_locked_in_order() {
    if usize::BITS == 64 {
        let pair = lock_bucket_pair(8, 16, 0xa000, 4);
        assert_eq!((pair.index1, pair.index2), (15, 14));
        assert_eq!((pair.first, pair.second), (14, Some(15)));
        assert_eq!(pair.unlock_bucket_pair(), (15, Some(14)));
        assert!(pair.is_current(0xa000));
        assert!(!pair.is_current(0xb000));

        let swapped = lock_bucket_pair(16, 8, 0xa000, 4);
        assert_eq!((swapped.first, swapped.second), (14, Some(15)));
        assert_eq!(swapped.unlock_bucket_pair(), (14, Some(15)));

        let same = lock_bucket_pair(72, 80, 0xa000, 4);
        assert_eq!((same.first, same.second), (7, None));
        assert_eq!(same.unlock_bucket_pair(), (7, None));
    }
}

use fifo_queues::blocking::BlockingQueue;
use fifo_queues::ext::CrossbeamQueue;
use fifo_queues::iface::{
    drain, fifo_round_trip, interleaved_round_trip, pops_agree, push_all, replay_agrees,
};
use fifo_queues::mpsc::MpscQueue;
use fifo_queues::ms::MsQueue;

#[test]
fn fifo_round_trip_all_backends() {
    // N pushes followed by N pops, no interleaving: pop order is push order,
    // whatever the backend.
    let batch: Vec<u64> = (0..100).map(|x| x * 3 + 1).collect();

    let mut a: MpscQueue<u64> = MpscQueue::new();
    assert_eq!(fifo_round_trip(&mut a, batch.clone()), batch);

    let mut b: MsQueue<u64> = MsQueue::new();
    assert_eq!(fifo_round_trip(&mut b, batch.clone()), batch);

    let mut c: BlockingQueue<u64> = BlockingQueue::new();
    assert_eq!(fifo_round_trip(&mut c, batch.clone()), batch);

    let mut d = CrossbeamQueue::new();
    assert_eq!(fifo_round_trip(&mut d, batch.clone()), batch);
}

#[test]
fn push_all_then_drain_keeps_order() {
    let mut q: MsQueue<u64> = MsQueue::new();
    push_all(&mut q, vec![4, 5, 6]);
    push_all(&mut q, vec![7, 8]);
    assert_eq!(drain(&mut q), vec![4, 5, 6, 7, 8]);
    assert_eq!(q.pop(), None);
}

#[test]
fn interleaved_producers_lose_and_duplicate_nothing() {
    // Two producers with unique payloads, pushes interleaved: the drained
    // multiset is exactly both batches together.
    let a: Vec<u64> = (0..50).map(|x| 100 + x).collect();
    let b: Vec<u64> = (0..50).map(|x| 500 + x).collect();
    let mut q: MsQueue<u64> = MsQueue::new();
    for i in 0..50 {
        q.push(a[i]);
        q.push(b[i]);
    }
    let mut got = drain(&mut q);
    got.sort();
    let mut expected: Vec<u64> = Vec::new();
    expected.extend(&a);
    expected.extend(&b);
    expected.sort();
    assert_eq!(got, expected);
}

#[test]
fn interleaved_round_trip_counts_match() {
    let a: Vec<u64> = (0..20).collect();
    let b: Vec<u64> = (100..120).collect();
    let mut s: Vec<u64> = Vec::new();
    for i in 0..20 {
        s.push(a[i]);
        s.push(b[i]);
    }
    let mut q: MsQueue<u64> = MsQueue::new();
    let mut r = interleaved_round_trip(&mut q, s, &a, &b);
    r.sort();
    let mut expected: Vec<u64> = Vec::new();
    expected.extend(&a);
    expected.extend(&b);
    expected.sort();
    assert_eq!(r, expected);
}

#[test]
fn backends_agree_with_reference_model() {
    // Drive a backend and the blocking reference model through the same
    // operation sequence (a small deterministic pseudorandom mix) and check
    // every pop answers identically.
    let mut q: MsQueue<u64> = MsQueue::new();
    let mut r: BlockingQueue<u64> = BlockingQueue::new();
    let mut seed: u64 = 0x2545F4914F6CDD1D;
    for step in 0..2000u64 {
        seed = seed.wrapping_mul(6364136223846793005).wrapping_add(1442695040888963407);
        if seed % 3 == 0 {
            let (x, y) = pops_agree(&mut q, &mut r);
            assert_eq!(x, y);
        } else {
            q.push(step);
            r.push(step);
        }
    }
    let dq = drain(&mut q);
    let dr = drain(&mut r);
    assert_eq!(dq, dr);
}

#[test]
fn replayed_history_agrees_across_backends() {
    // A mixed history of pushes and pops, replayed against the
    // multi-consumer queue and the crossbeam backend with the blocking
    // adapter as reference.
    let mut ops: Vec<Option<u64>> = Vec::new();
    let mut seed: u64 = 42;
    for step in 0..500u64 {
        seed = seed.wrapping_mul(2862933555777941757).wrapping_add(3037000493);
        if seed % 2 == 0 {
            ops.push(Some(step));
        } else {
            ops.push(None);
        }
    }
    let mut q: MsQueue<u64> = MsQueue::new();
    let mut r: BlockingQueue<u64> = BlockingQueue::new();
    let (x, y) = replay_agrees(&mut q, &mut r, &ops);
    assert_eq!(x, y);

    let mut c = CrossbeamQueue::new();
    let mut r2: BlockingQueue<u64> = BlockingQueue::new();
    let (x2, y2) = replay_agrees(&mut c, &mut r2, &ops);
    assert_eq!(x2, y2);
}

#[test]
fn mpmc_two_producers_two_consumers_scenario() {
    // Two producers each push 0..999_999 (interleaved) into the
    // multi-consumer queue; 2_000_000 pops then collect a multiset equal to
    // {0..999_999} twice — nothing missing, nothing duplicated — and the
    // run terminates with an empty queue.
    const COUNT: u64 = 1_000_000;
    let mut q: MsQueue<u64> = MsQueue::new();
    for x in 0..COUNT {
        q.push(x);
        q.push(x);
    }
    let mut counts = vec![0u32; COUNT as usize];
    for _ in 0..2 * COUNT {
        let v = q.pop().expect("a pushed value must still be there");
        counts[v as usize] += 1;
    }
    assert_eq!(q.pop(), None);
    for c in counts {
        assert_eq!(c, 2);
    }
}

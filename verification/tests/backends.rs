use fifo_queues::blocking::BlockingQueue;
use fifo_queues::ext::CrossbeamQueue;
use fifo_queues::mpsc::{MpscQueue, PopResult};
use fifo_queues::ms::MsQueue;

#[test]
fn mpsc_single_consumer_scenario() {
    // One producer pushes 0, 1, 2 sequentially with no concurrent pop; the
    // single consumer then pops Data(0), Data(1), Data(2), then Empty.
    let mut q: MpscQueue<u64> = MpscQueue::new();
    q.push(0);
    q.push(1);
    q.push(2);
    assert!(matches!(q.pop(), PopResult::Data(0)));
    assert!(matches!(q.pop(), PopResult::Data(1)));
    assert!(matches!(q.pop(), PopResult::Data(2)));
    assert!(matches!(q.pop(), PopResult::Empty));
}

#[test]
fn mpsc_new_queue_pops_empty() {
    let mut q: MpscQueue<u64> = MpscQueue::new();
    assert!(matches!(q.pop(), PopResult::Empty));
    assert!(matches!(q.pop(), PopResult::Empty));
}

#[test]
fn mpsc_mid_flight_push_pops_inconsistent() {
    // Between the tail swap and the link, a pop must report the transient
    // state, never emptiness.
    let mut q: MpscQueue<u64> = MpscQueue::new();
    let prev = q.push_swap(7);
    assert!(matches!(q.pop(), PopResult::Inconsistent));
    assert!(matches!(q.pop(), PopResult::Inconsistent));
    q.push_link(prev);
    assert!(matches!(q.pop(), PopResult::Data(7)));
    assert!(matches!(q.pop(), PopResult::Empty));
}

#[test]
fn mpsc_mid_flight_push_behind_data() {
    // A mid-flight push does not hide values that are already linked.
    let mut q: MpscQueue<u64> = MpscQueue::new();
    q.push(1);
    let prev = q.push_swap(2);
    assert!(matches!(q.pop(), PopResult::Data(1)));
    assert!(matches!(q.pop(), PopResult::Inconsistent));
    q.push_link(prev);
    assert!(matches!(q.pop(), PopResult::Data(2)));
    assert!(matches!(q.pop(), PopResult::Empty));
}

#[test]
fn ms_new_queue_pops_none() {
    let mut q: MsQueue<u64> = MsQueue::new();
    assert_eq!(q.pop(), None);
    assert_eq!(q.pop(), None);
}

#[test]
fn ms_fifo_order() {
    let mut q: MsQueue<u64> = MsQueue::new();
    for x in 0..10u64 {
        q.push(x);
    }
    for x in 0..10u64 {
        assert_eq!(q.pop(), Some(x));
    }
    assert_eq!(q.pop(), None);
}

#[test]
fn ms_lagging_tail_steps() {
    // A linked value is in the queue before the tail is swung, and both a
    // later push and a pop help the lagging tail forward.
    let mut q: MsQueue<u64> = MsQueue::new();
    q.push_link(1);
    q.push(2);
    assert_eq!(q.pop(), Some(1));
    assert_eq!(q.pop(), Some(2));
    assert_eq!(q.pop(), None);

    let mut p: MsQueue<u64> = MsQueue::new();
    p.push_link(5);
    assert_eq!(p.pop(), Some(5));
    assert_eq!(p.pop(), None);
}

#[test]
fn ms_interleaved_push_pop() {
    let mut q: MsQueue<u64> = MsQueue::new();
    q.push(1);
    q.push(2);
    assert_eq!(q.pop(), Some(1));
    q.push(3);
    assert_eq!(q.pop(), Some(2));
    assert_eq!(q.pop(), Some(3));
    assert_eq!(q.pop(), None);
}

#[test]
fn blocking_queue_baseline() {
    let mut q: BlockingQueue<u64> = BlockingQueue::new();
    assert_eq!(q.pop(), None);
    q.push(10);
    q.push(20);
    assert_eq!(q.pop(), Some(10));
    q.push(30);
    assert_eq!(q.pop(), Some(20));
    assert_eq!(q.pop(), Some(30));
    assert_eq!(q.pop(), None);
}

#[test]
fn crossbeam_backend_fifo() {
    // Runs the real crossbeam queue through the wrapped operations.
    let mut q = CrossbeamQueue::new();
    assert_eq!(q.pop(), None);
    for x in 0..1000u64 {
        q.push(x);
    }
    for x in 0..1000u64 {
        assert_eq!(q.pop(), Some(x));
    }
    assert_eq!(q.pop(), None);
}

#[test]
fn node_storage_is_reused() {
    // Alternating push/pop reuses reclaimed nodes; a long run stays correct.
    let mut q: MpscQueue<u64> = MpscQueue::new();
    for x in 0..10_000u64 {
        q.push(x);
        assert!(matches!(q.pop(), PopResult::Data(y) if y == x));
    }
    assert!(matches!(q.pop(), PopResult::Empty));
}

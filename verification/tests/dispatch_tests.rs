use mayastor::dispatch::{DispatchQueue, ErrorRecordMsg};

fn msg(offset: u64) -> ErrorRecordMsg {
    ErrorRecordMsg {
        nexus_name: "nx".to_string(),
        device_id: 1,
        io_op: 1,
        io_error: -1,
        io_offset: offset,
        io_num_blocks: 1,
        timestamp: offset,
    }
}

#[test]
fn dispatch_queue_is_fifo_and_drops_on_overflow() {
    let mut q = DispatchQueue::new(2);
    assert!(q.recv().is_none());
    q.send(msg(1));
    q.send(msg(2));
    q.send(msg(3)); // full: dropped, never blocks
    assert_eq!(q.recv().unwrap().io_offset, 1);
    assert_eq!(q.recv().unwrap().io_offset, 2);
    assert!(q.recv().is_none());
    q.send(msg(4));
    assert_eq!(q.recv().unwrap().io_offset, 4);
}


use adaptive_transport::packet::Reliability;
use adaptive_transport::scheduler::{PriorityScheduler, ScheduledPacket};

fn make_packet(priority: u8, seq: u32) -> ScheduledPacket {
    ScheduledPacket {
        priority,
        seq,
        reliability: Reliability::BestEffort,
        encoded: vec![0],
        payload_preview: format!("packet-{}", seq),
    }
}

#[test]
fn scheduler_prefers_higher_priority_first() {
    let mut scheduler = PriorityScheduler::new();

    scheduler.enqueue(make_packet(1, 1));
    scheduler.enqueue(make_packet(7, 2));
    scheduler.enqueue(make_packet(3, 3));

    let first = scheduler.pop_next().expect("should have packet");
    assert_eq!(first.seq, 2);
    assert_eq!(first.priority, 7);

    let second = scheduler.pop_next().expect("should have packet");
    assert_eq!(second.seq, 3);
    assert_eq!(second.priority, 3);

    let third = scheduler.pop_next().expect("should have packet");
    assert_eq!(third.seq, 1);
    assert_eq!(third.priority, 1);
}

#[test]
fn equal_priority_goes_by_lowest_sequence() {
    let mut scheduler = PriorityScheduler::new();
    scheduler.enqueue(make_packet(4, 9));
    scheduler.enqueue(make_packet(4, 2));
    scheduler.enqueue(make_packet(4, 5));
    assert_eq!(scheduler.len(), 3);
    let order: Vec<u32> = (0..3).map(|_| scheduler.pop_next().unwrap().seq).collect();
    assert_eq!(order, vec![2, 5, 9]);
    assert!(scheduler.is_empty());
    assert!(scheduler.pop_next().is_none());
}

#[test]
fn draining_gives_every_packet_in_order() {
    let mut scheduler = PriorityScheduler::new();
    for (priority, seq) in [(2, 5), (9, 7), (2, 1), (9, 3), (0, 0), (2, 1)] {
        scheduler.enqueue(make_packet(priority, seq));
    }
    let out = scheduler.drain_in_order();
    let keys: Vec<(u8, u32)> = out.iter().map(|p| (p.priority, p.seq)).collect();
    assert_eq!(keys, vec![(9, 3), (9, 7), (2, 1), (2, 1), (2, 5), (0, 0)]);
    assert!(scheduler.is_empty());
    assert!(scheduler.pop_next().is_none());
}

#[test]
fn equal_keys_leave_in_enqueue_order() {
    let mut scheduler = PriorityScheduler::new();
    for (priority, seq, label) in [(3, 4, "first"), (5, 1, "top"), (3, 4, "second"), (3, 4, "third")] {
        let mut p = make_packet(priority, seq);
        p.payload_preview = String::from(label);
        scheduler.enqueue(p);
    }
    let mut labels = Vec::new();
    while let Some(p) = scheduler.pop_next() {
        labels.push(p.payload_preview);
    }
    assert_eq!(labels, vec!["top", "first", "second", "third"]);
    assert_eq!(scheduler.len(), 0);
}

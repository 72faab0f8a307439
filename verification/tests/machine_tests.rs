use lib::paging::{satp_value, PageTable};
use lib::trap::{is_timer_interrupt, next_deadline, Ticks, INTERVAL};
use lib::virtio::{device_matches, queue_fits, queue_pfn, timed_out, zero_desc, VirtQueueBlock, VirtqDesc, VIRTIO_MAGIC};

#[test]
fn identity_map_entries() {
    let mut t = PageTable::new();
    assert!(t.entries.iter().all(|&e| e == 0));
    t.identity_map();
    assert_eq!(t.entries[2], 0x2000_00CF);
    assert_eq!(t.entries[0], 0xC7);
    assert_eq!(t.entries[1], 0);
    assert_eq!(t.entries[3], 0);
}

#[test]
fn satp_selects_sv39() {
    assert_eq!(satp_value(0x8020_0000), 0x8000_0000_0008_0200);
    assert_eq!(satp_value(0), 0x8000_0000_0000_0000);
    assert_eq!(satp_value(0x1fff), 0x8000_0000_0000_0001);
}

#[test]
fn timer_interrupt_causes() {
    assert!(is_timer_interrupt(0x8000_0000_0000_0007));
    assert!(is_timer_interrupt(0x8000_0000_0000_0107));
    assert!(!is_timer_interrupt(7));
    assert!(!is_timer_interrupt(0x8000_0000_0000_0005));
}

#[test]
fn deadlines_wrap() {
    assert_eq!(next_deadline(5), 5 + INTERVAL);
    assert_eq!(next_deadline(u64::MAX), INTERVAL - 1);
}

#[test]
fn ticks_count_timer_traps_only() {
    let mut t = Ticks::new();
    assert_eq!(t.ticks(), 0);
    assert!(t.on_trap(0x8000_0000_0000_0007));
    assert!(!t.on_trap(2));
    assert!(t.on_trap(0x8000_0000_0000_0007));
    assert_eq!(t.ticks(), 2);
    let mut w = Ticks { count: u64::MAX };
    w.on_trap(0x8000_0000_0000_0007);
    assert_eq!(w.ticks(), 0);
}

#[test]
fn device_checks() {
    assert!(device_matches(VIRTIO_MAGIC, 1, 16, 16));
    assert!(!device_matches(VIRTIO_MAGIC, 2, 16, 16));
    assert!(!device_matches(0, 1, 16, 16));
    assert!(!device_matches(VIRTIO_MAGIC, 1, 18, 16));
    assert!(queue_fits(16));
    assert!(queue_fits(1024));
    assert!(!queue_fits(15));
    assert_eq!(queue_pfn(0x8000_1000), 0x80001);
    assert_eq!(queue_pfn(0x8000_1fff), 0x80001);
}

#[test]
fn command_timeouts() {
    assert!(!timed_out(100, 150));
    assert!(timed_out(100, 151));
    assert!(timed_out(u64::MAX, 50));
    assert!(!timed_out(u64::MAX - 10, 20));
}

#[test]
fn queue_rings() {
    let mut q = VirtQueueBlock::new();
    assert_eq!(q.avail_idx, 0);
    q.push_avail(3);
    assert_eq!(q.avail_ring[0], 3);
    assert_eq!(q.avail_idx, 1);
    q.avail_idx = 0xffff;
    q.push_avail(7);
    assert_eq!(q.avail_ring[15], 7);
    assert_eq!(q.avail_idx, 0);
    let d = VirtqDesc { addr: 0x1000, len: 24, flags: 2, next: 0 };
    q.set_desc(1, d);
    assert_eq!(q.desc[1], d);
    assert_eq!(q.desc[0], zero_desc());
    assert!(!q.has_used(0));
    q.used_idx = 1;
    q.used_ring[0].id = 5;
    assert!(q.has_used(0));
    assert_eq!(q.used_id(0), 5);
    q.used_ring[1].id = 9;
    assert_eq!(q.used_id(17), 9);
}

#[test]
fn used_chains_are_recycled() {
    let mut q = VirtQueueBlock::new();
    let mut last: u16 = 0;
    assert_eq!(q.recycle_used(&mut last), None);
    assert_eq!(last, 0);
    assert_eq!(q.avail_idx, 0);
    q.used_ring[0].id = 4;
    q.used_ring[1].id = 11;
    q.used_idx = 2;
    q.avail_idx = 16;
    assert_eq!(q.recycle_used(&mut last), Some(4));
    assert_eq!(last, 1);
    assert_eq!(q.avail_ring[0], 4);
    assert_eq!(q.avail_idx, 17);
    assert_eq!(q.recycle_used(&mut last), Some(11));
    assert_eq!(q.avail_ring[1], 11);
    assert_eq!(q.recycle_used(&mut last), None);
    assert_eq!(last, 2);
    let mut w: u16 = 0xffff;
    q.used_idx = 0;
    q.used_ring[15].id = 3;
    assert_eq!(q.recycle_used(&mut w), Some(3));
    assert_eq!(w, 0);
}

use lib::keyboard::{fill_event_queue, poll, Keyboard, VirtioInputEvent};
use lib::virtio::{queue_writes, reset_writes, virtio_init_ok, SendState};

#[test]
fn device_bring_up_decisions_and_writes() {
    assert!(virtio_init_ok(VIRTIO_MAGIC, 1, 16, 16, 16));
    assert!(!virtio_init_ok(VIRTIO_MAGIC, 1, 16, 16, 8));
    assert!(!virtio_init_ok(VIRTIO_MAGIC, 1, 18, 16, 64));
    assert_eq!(reset_writes(), vec![(0x070, 0), (0x070, 1), (0x070, 3), (0x030, 0)]);
    assert_eq!(queue_writes(0x8002_0000), vec![(0x038, 16), (0x028, 4096), (0x040, 0x80020), (0x070, 7)]);
}

#[test]
fn sending_a_command_and_waiting() {
    let mut q = VirtQueueBlock::new();
    let d0 = VirtqDesc { addr: 0x10, len: 40, flags: 1, next: 1 };
    let d1 = VirtqDesc { addr: 0x20, len: 24, flags: 2, next: 0 };
    q.avail_idx = 5;
    q.send_begin(&[d0, d1]);
    assert_eq!((q.desc[0], q.desc[1], q.desc[2]), (d0, d1, zero_desc()));
    assert_eq!((q.avail_ring[5], q.avail_idx), (0, 6));
    let mut last: u16 = 3;
    q.used_idx = 3;
    assert_eq!(q.send_step(&mut last, 100, 120), SendState::Waiting);
    assert_eq!(q.send_step(&mut last, 100, 151), SendState::TimedOut);
    assert_eq!(last, 3);
    q.used_idx = 4;
    assert_eq!(q.send_step(&mut last, 100, 151), SendState::Done);
    assert_eq!(last, 4);
}

#[test]
fn keyboard_events_arrive_through_the_queue() {
    let mut q = VirtQueueBlock::new();
    let addrs: Vec<u64> = (0..16).map(|i| 0x9000 + 8 * i).collect();
    fill_event_queue(&mut q, &addrs);
    assert_eq!(q.avail_idx, 16);
    assert_eq!(q.desc[3], VirtqDesc { addr: 0x9018, len: 8, flags: 2, next: 0 });
    assert_eq!(q.avail_ring[7], 7);
    let mut events = [VirtioInputEvent { type_: 0, code: 0, value: 0 }; 16];
    events[2] = VirtioInputEvent { type_: 1, code: 42, value: 1 };
    events[5] = VirtioInputEvent { type_: 1, code: 30, value: 1 };
    let mut kbd = Keyboard::new();
    let mut last: u16 = 0;
    assert_eq!(poll(&mut kbd, &mut q, &mut last, 0x1000_2000, &events), None);
    assert_eq!(last, 0);
    q.used_ring[0].id = 2;
    q.used_ring[1].id = 5;
    q.used_idx = 2;
    assert_eq!(poll(&mut kbd, &mut q, &mut last, 0, &events), None);
    assert_eq!(last, 0);
    assert_eq!(poll(&mut kbd, &mut q, &mut last, 0x1000_2000, &events), None);
    assert!(kbd.shift_pressed);
    assert_eq!((last, q.avail_ring[0], q.avail_idx), (1, 2, 17));
    assert_eq!(poll(&mut kbd, &mut q, &mut last, 0x1000_2000, &events), Some(b'A'));
    assert_eq!((last, q.avail_ring[1], q.avail_idx), (2, 5, 18));
    assert_eq!(poll(&mut kbd, &mut q, &mut last, 0x1000_2000, &events), None);
}

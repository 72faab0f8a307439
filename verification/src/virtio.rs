//! Virtio queues over MMIO (legacy interface): the descriptor table and
//! the two rings of a 16-entry queue, and the checks made on a device.
use vstd::prelude::*;

verus! {

/// Entries in each queue.
pub const QUEUE_SIZE: usize = 16;

/// The value of the magic register of a virtio device ("virt").
pub const VIRTIO_MAGIC: u32 = 0x74726976;

/// Descriptor flag: the buffer continues in the descriptor named by `next`.
pub const VIRTQ_DESC_F_NEXT: u16 = 1;

/// Descriptor flag: the device writes this buffer.
pub const VIRTQ_DESC_F_WRITE: u16 = 2;

/// Ticks after which a command counts as lost. With the timer's tick of
/// 10,000,000 cycles of the 10 MHz machine timer, one tick a second, that
/// is about 50 seconds.
pub const COMMAND_TIMEOUT: u64 = 50;

/// Register offsets of the legacy MMIO interface.
pub const MMIO_MAGIC_VALUE: usize = 0x000;
pub const MMIO_VERSION: usize = 0x004;
pub const MMIO_DEVICE_ID: usize = 0x008;
pub const MMIO_GUEST_PAGE_SIZE: usize = 0x028;
pub const MMIO_QUEUE_SEL: usize = 0x030;
pub const MMIO_QUEUE_NUM_MAX: usize = 0x034;
pub const MMIO_QUEUE_NUM: usize = 0x038;
pub const MMIO_QUEUE_PFN: usize = 0x040;
pub const MMIO_QUEUE_NOTIFY: usize = 0x050;
pub const MMIO_STATUS: usize = 0x070;

/// A buffer descriptor.
#[derive(Clone, Copy, PartialEq, Eq, Structural, Debug)]
pub struct VirtqDesc {
    pub addr: u64,
    pub len: u32,
    pub flags: u16,
    pub next: u16,
}

/// An entry of the used ring: a descriptor chain the device is done with.
#[derive(Clone, Copy, PartialEq, Eq, Structural, Debug)]
pub struct VirtqUsedElem {
    pub id: u32,
    pub len: u32,
}

/// One queue: descriptors, the available ring (driver to device), padding
/// to the next page, and the used ring (device to driver).
pub struct VirtQueueBlock {
    pub desc: [VirtqDesc; 16],
    pub avail_flags: u16,
    pub avail_idx: u16,
    pub avail_ring: [u16; 16],
    pub avail_used_event: u16,
    pub pad: [u8; 3802],
    pub used_flags: u16,
    pub used_idx: u16,
    pub used_ring: [VirtqUsedElem; 16],
    pub used_avail_event: u16,
}

/// Whether the registers of a device show a legacy virtio device of the
/// expected kind.
pub open spec fn device_matches_spec(magic: u32, version: u32, device_id: u32, expected: u32) -> bool {
    magic == VIRTIO_MAGIC && version == 1 && device_id == expected
}

/// Whether the registers of a device show a legacy virtio device of the
/// expected kind.
pub fn device_matches(magic: u32, version: u32, device_id: u32, expected: u32) -> (r: bool)
    ensures
        r == device_matches_spec(magic, version, device_id, expected),
{
    !(magic != VIRTIO_MAGIC || version != 1 || device_id != expected)
}

/// Whether a device's largest queue can hold our queue.
pub fn queue_fits(max_num: u32) -> (r: bool)
    ensures
        r == (max_num >= 16),
{
    max_num >= 16
}

/// The page frame number of the queue at address `addr`, cut to 32 bits.
pub fn queue_pfn(addr: usize) -> (r: u32)
    ensures
        r == (addr / 4096) as u32,
{
    (addr / 4096) as u32
}

/// Whether a command sent at tick `start` has run out of time at tick
/// `now`: more than `COMMAND_TIMEOUT` ticks have passed (the tick counter
/// wraps around).
pub fn timed_out(start: u64, now: u64) -> (r: bool)
    ensures
        r == ((now - start) % 0x1_0000_0000_0000_0000 > COMMAND_TIMEOUT),
{
    now.wrapping_sub(start) > COMMAND_TIMEOUT
}

/// A descriptor with everything zero.
pub fn zero_desc() -> (d: VirtqDesc)
    ensures
        d == (VirtqDesc { addr: 0, len: 0, flags: 0, next: 0 }),
{
    VirtqDesc { addr: 0, len: 0, flags: 0, next: 0 }
}

/// `q2` is `q` with the chain at `head` offered to the device: `head`
/// written into the available ring at the current index, the index
/// advanced (wrapping around), and nothing else changed.
pub open spec fn offered(q: VirtQueueBlock, q2: VirtQueueBlock, head: u16) -> bool {
    &&& q2.avail_ring@ == q.avail_ring@.update((q.avail_idx % 16) as int, head)
    &&& q2.avail_idx == (q.avail_idx + 1) % 0x1_0000
    &&& q2.desc == q.desc
    &&& q2.avail_flags == q.avail_flags
    &&& q2.avail_used_event == q.avail_used_event
    &&& q2.pad == q.pad
    &&& q2.used_flags == q.used_flags
    &&& q2.used_idx == q.used_idx
    &&& q2.used_ring == q.used_ring
    &&& q2.used_avail_event == q.used_avail_event
}

impl VirtQueueBlock {
    /// A queue with everything zero.
    pub fn new() -> (q: Self)
        ensures
            forall|i: int| 0 <= i < 16 ==> #[trigger] q.desc@[i] == (VirtqDesc { addr: 0, len: 0, flags: 0, next: 0 }),
            forall|i: int| 0 <= i < 16 ==> #[trigger] q.avail_ring@[i] == 0,
            forall|i: int| 0 <= i < 16 ==> #[trigger] q.used_ring@[i] == (VirtqUsedElem { id: 0, len: 0 }),
            forall|i: int| 0 <= i < 3802 ==> #[trigger] q.pad@[i] == 0,
            q.avail_flags == 0,
            q.avail_idx == 0,
            q.avail_used_event == 0,
            q.used_flags == 0,
            q.used_idx == 0,
            q.used_avail_event == 0,
    {
        VirtQueueBlock {
            desc: [zero_desc(); 16],
            avail_flags: 0,
            avail_idx: 0,
            avail_ring: [0u16; 16],
            avail_used_event: 0,
            pad: [0u8; 3802],
            used_flags: 0,
            used_idx: 0,
            used_ring: [VirtqUsedElem { id: 0, len: 0 }; 16],
            used_avail_event: 0,
        }
    }

    /// Offer the descriptor chain starting at `head` to the device: it goes
    /// into the available ring at the current index, which then advances
    /// (wrapping around).
    pub fn push_avail(&mut self, head: u16)
        ensures
            offered(*old(self), *final(self), head),
    {
        let avail_idx = self.avail_idx;
        self.avail_ring[(avail_idx % 16) as usize] = head;
        self.avail_idx = avail_idx.wrapping_add(1);
    }

    /// Take the next chain that the device has used, if there is one not yet
    /// seen: its head is returned and offered to the device again, and
    /// `last_used` moves past it (wrapping around).
    pub fn recycle_used(&mut self, last_used: &mut u16) -> (r: Option<u32>)
        ensures
            old(self).used_idx == *old(last_used) ==> r is None && *final(self) == *old(self) && *final(last_used)
                == *old(last_used),
            old(self).used_idx != *old(last_used) ==> {
                let id = old(self).used_ring@[(*old(last_used) % 16) as int].id;
                &&& r == Some(id)
                &&& offered(*old(self), *final(self), id as u16)
                &&& *final(last_used) == (*old(last_used) + 1) % 0x1_0000
            },
    {
        if !self.has_used(*last_used) {
            return None;
        }
        let id = self.used_id(*last_used);
        self.push_avail(id as u16);
        *last_used = (*last_used).wrapping_add(1);
        Some(id)
    }

    /// Set descriptor `i`.
    pub fn set_desc(&mut self, i: usize, d: VirtqDesc)
        requires
            i < 16,
        ensures
            final(self).desc@ == old(self).desc@.update(i as int, d),
            final(self).avail_flags == old(self).avail_flags,
            final(self).avail_idx == old(self).avail_idx,
            final(self).avail_ring == old(self).avail_ring,
            final(self).avail_used_event == old(self).avail_used_event,
            final(self).pad == old(self).pad,
            final(self).used_flags == old(self).used_flags,
            final(self).used_idx == old(self).used_idx,
            final(self).used_ring == old(self).used_ring,
            final(self).used_avail_event == old(self).used_avail_event,
    {
        self.desc[i] = d;
    }

    /// Whether the device has used a chain that the driver has not yet seen.
    pub fn has_used(&self, last_used: u16) -> (r: bool)
        ensures
            r == (self.used_idx != last_used),
    {
        self.used_idx != last_used
    }

    /// The head of the next used chain after `last_used`.
    pub fn used_id(&self, last_used: u16) -> (r: u32)
        ensures
            r == self.used_ring@[(last_used % 16) as int].id,
    {
        self.used_ring[(last_used % 16) as usize].id
    }
}

/// Whether a device can be brought up: its registers show a legacy virtio
/// device of the expected kind, and its first queue can hold 16 entries.
pub fn virtio_init_ok(magic: u32, version: u32, device_id: u32, expected: u32, max_num: u32) -> (r: bool)
    ensures
        r == (device_matches_spec(magic, version, device_id, expected) && max_num >= 16),
{
    device_matches(magic, version, device_id, expected) && queue_fits(max_num)
}

/// The register writes, in order, that follow a device's identification:
/// reset, acknowledge, driver, then select queue 0.
pub fn reset_writes() -> (w: Vec<(usize, u32)>)
    ensures
        w@ == seq![(MMIO_STATUS, 0u32), (MMIO_STATUS, 1u32), (MMIO_STATUS, 3u32), (MMIO_QUEUE_SEL, 0u32)],
{
    let mut w: Vec<(usize, u32)> = Vec::new();
    w.push((MMIO_STATUS, 0u32));
    w.push((MMIO_STATUS, 1u32));
    w.push((MMIO_STATUS, 3u32));
    w.push((MMIO_QUEUE_SEL, 0u32));
    assert(w@ =~= seq![(MMIO_STATUS, 0u32), (MMIO_STATUS, 1u32), (MMIO_STATUS, 3u32), (MMIO_QUEUE_SEL, 0u32)]);
    w
}

/// The register writes, in order, that hand the device a queue at address
/// `vq_addr` once it is known to fit: 16 entries, 4096-byte pages, the
/// queue's page frame number, then driver-ready.
pub fn queue_writes(vq_addr: usize) -> (w: Vec<(usize, u32)>)
    ensures
        w@ == seq![
            (MMIO_QUEUE_NUM, 16u32),
            (MMIO_GUEST_PAGE_SIZE, 4096u32),
            (MMIO_QUEUE_PFN, (vq_addr / 4096) as u32),
            (MMIO_STATUS, 7u32),
        ],
{
    let mut w: Vec<(usize, u32)> = Vec::new();
    w.push((MMIO_QUEUE_NUM, 16u32));
    w.push((MMIO_GUEST_PAGE_SIZE, 4096u32));
    w.push((MMIO_QUEUE_PFN, queue_pfn(vq_addr)));
    w.push((MMIO_STATUS, 7u32));
    assert(w@ =~= seq![
        (MMIO_QUEUE_NUM, 16u32),
        (MMIO_GUEST_PAGE_SIZE, 4096u32),
        (MMIO_QUEUE_PFN, (vq_addr / 4096) as u32),
        (MMIO_STATUS, 7u32),
    ]);
    w
}

/// Where a command sent to a device stands.
#[derive(Clone, Copy, PartialEq, Eq, Structural, Debug)]
pub enum SendState {
    /// The device has not answered yet; look again.
    Waiting,
    /// The device has answered.
    Done,
    /// The device took too long.
    TimedOut,
}

impl VirtQueueBlock {
    /// Start a command: the descriptor chain `chain` goes into the first
    /// descriptors and the chain at 0 is offered to the device; the other
    /// descriptors and the rest of the queue stay as they were.
    pub fn send_begin(&mut self, chain: &[VirtqDesc])
        requires
            chain@.len() <= 16,
        ensures
            forall|i: int| 0 <= i < 16 ==> #[trigger] final(self).desc@[i] == (if i < chain@.len() {
                chain@[i]
            } else {
                old(self).desc@[i]
            }),
            final(self).avail_ring@ == old(self).avail_ring@.update((old(self).avail_idx % 16) as int, 0),
            final(self).avail_idx == (old(self).avail_idx + 1) % 0x1_0000,
            final(self).avail_flags == old(self).avail_flags,
            final(self).avail_used_event == old(self).avail_used_event,
            final(self).pad == old(self).pad,
            final(self).used_flags == old(self).used_flags,
            final(self).used_idx == old(self).used_idx,
            final(self).used_ring == old(self).used_ring,
            final(self).used_avail_event == old(self).used_avail_event,
    {
        let mut i: usize = 0;
        while i < chain.len()
            invariant
                i <= chain@.len(),
                chain@.len() <= 16,
                forall|k: int| 0 <= k < 16 ==> #[trigger] self.desc@[k] == (if k < i { chain@[k] } else { old(self).desc@[k] }),
                self.avail_ring == old(self).avail_ring,
                self.avail_idx == old(self).avail_idx,
                self.avail_flags == old(self).avail_flags,
                self.avail_used_event == old(self).avail_used_event,
                self.pad == old(self).pad,
                self.used_flags == old(self).used_flags,
                self.used_idx == old(self).used_idx,
                self.used_ring == old(self).used_ring,
                self.used_avail_event == old(self).used_avail_event,
            decreases chain@.len() - i,
        {
            self.set_desc(i, chain[i]);
            i = i + 1;
        }
        self.push_avail(0);
    }

    /// One look at a command in flight, sent at tick `start`, at tick `now`:
    /// once the device has moved its used index past `last_used`, the
    /// command is done and `last_used` catches up; otherwise it has timed
    /// out after more than `COMMAND_TIMEOUT` ticks, or is still waiting.
    pub fn send_step(&self, last_used: &mut u16, start: u64, now: u64) -> (r: SendState)
        ensures
            self.used_idx != *old(last_used) ==> r == SendState::Done && *final(last_used) == self.used_idx,
            self.used_idx == *old(last_used) ==> *final(last_used) == *old(last_used) && r == (if (now - start)
                % 0x1_0000_0000_0000_0000 > COMMAND_TIMEOUT {
                SendState::TimedOut
            } else {
                SendState::Waiting
            }),
    {
        if self.has_used(*last_used) {
            *last_used = self.used_idx;
            SendState::Done
        } else if timed_out(start, now) {
            SendState::TimedOut
        } else {
            SendState::Waiting
        }
    }
}

} // verus!

//! The requests the framebuffer device is sent: the records of the virtio
//! GPU control queue that set up and show the framebuffer, and the
//! descriptor chains that carry a request and its response.
use vstd::prelude::*;
use crate::gpu::{WIDTH, HEIGHT};
use crate::virtio::{VirtqDesc, VIRTQ_DESC_F_NEXT, VIRTQ_DESC_F_WRITE};

verus! {

pub const VIRTIO_GPU_CMD_GET_DISPLAY_INFO: u32 = 0x0100;
pub const VIRTIO_GPU_CMD_RESOURCE_CREATE_2D: u32 = 0x0101;
pub const VIRTIO_GPU_CMD_RESOURCE_UNREF: u32 = 0x0102;
pub const VIRTIO_GPU_CMD_SET_SCANOUT: u32 = 0x0103;
pub const VIRTIO_GPU_CMD_RESOURCE_FLUSH: u32 = 0x0104;
pub const VIRTIO_GPU_CMD_TRANSFER_TO_HOST_2D: u32 = 0x0105;
pub const VIRTIO_GPU_CMD_RESOURCE_ATTACH_BACKING: u32 = 0x0106;

/// The one resource the framebuffer is shown through.
pub const RESOURCE_ID: u32 = 1;

/// Pixel format of the resource: blue, green, red, alpha, a byte each.
pub const FORMAT_B8G8R8A8: u32 = 1;

/// Bytes of the response buffer of every request.
pub const RESPONSE_LEN: u32 = 24;

/// Bytes of the framebuffer.
pub const FRAMEBUFFER_BYTES: u32 = 1_920_000;

/// The header that starts every request.
#[derive(Clone, Copy, PartialEq, Eq, Structural, Debug)]
pub struct GpuCtrlHdr {
    pub type_: u32,
    pub flags: u32,
    pub fence_id: u64,
    pub ctx_id: u32,
    pub padding: u32,
}

/// Create a two-dimensional resource.
#[derive(Clone, Copy, PartialEq, Eq, Structural, Debug)]
pub struct ResourceCreate2d {
    pub hdr: GpuCtrlHdr,
    pub resource_id: u32,
    pub format: u32,
    pub width: u32,
    pub height: u32,
}

/// Attach guest memory to a resource; the memory entries follow.
#[derive(Clone, Copy, PartialEq, Eq, Structural, Debug)]
pub struct ResourceAttachBacking {
    pub hdr: GpuCtrlHdr,
    pub resource_id: u32,
    pub nr_entries: u32,
}

/// One stretch of guest memory.
#[derive(Clone, Copy, PartialEq, Eq, Structural, Debug)]
pub struct MemEntry {
    pub addr: u64,
    pub length: u32,
    pub padding: u32,
}

/// Show a resource on a scanout.
#[derive(Clone, Copy, PartialEq, Eq, Structural, Debug)]
pub struct SetScanout {
    pub hdr: GpuCtrlHdr,
    pub r_x: u32,
    pub r_y: u32,
    pub r_width: u32,
    pub r_height: u32,
    pub scanout_id: u32,
    pub resource_id: u32,
}

/// Copy guest memory into a resource.
#[derive(Clone, Copy, PartialEq, Eq, Structural, Debug)]
pub struct TransferToHost2d {
    pub hdr: GpuCtrlHdr,
    pub r_x: u32,
    pub r_y: u32,
    pub r_width: u32,
    pub r_height: u32,
    pub offset: u64,
    pub resource_id: u32,
    pub padding: u32,
}

/// Show the changed part of a resource.
#[derive(Clone, Copy, PartialEq, Eq, Structural, Debug)]
pub struct ResourceFlush {
    pub hdr: GpuCtrlHdr,
    pub r_x: u32,
    pub r_y: u32,
    pub r_width: u32,
    pub r_height: u32,
    pub resource_id: u32,
    pub padding: u32,
}


/// The request that creates the framebuffer's resource.
pub open spec fn create_2d_spec() -> ResourceCreate2d {
    ResourceCreate2d {
        hdr: GpuCtrlHdr { type_: VIRTIO_GPU_CMD_RESOURCE_CREATE_2D, flags: 0, fence_id: 0, ctx_id: 0, padding: 0 },
        resource_id: RESOURCE_ID,
        format: FORMAT_B8G8R8A8,
        width: WIDTH,
        height: HEIGHT,
    }
}

/// The request that attaches the framebuffer's memory.
pub open spec fn attach_backing_spec() -> ResourceAttachBacking {
    ResourceAttachBacking {
        hdr: GpuCtrlHdr { type_: VIRTIO_GPU_CMD_RESOURCE_ATTACH_BACKING, flags: 0, fence_id: 0, ctx_id: 0, padding: 0 },
        resource_id: RESOURCE_ID,
        nr_entries: 1,
    }
}

/// The request that shows the resource on scanout 0.
pub open spec fn set_scanout_spec() -> SetScanout {
    SetScanout {
        hdr: GpuCtrlHdr { type_: VIRTIO_GPU_CMD_SET_SCANOUT, flags: 0, fence_id: 0, ctx_id: 0, padding: 0 },
        r_x: 0,
        r_y: 0,
        r_width: WIDTH,
        r_height: HEIGHT,
        scanout_id: 0,
        resource_id: RESOURCE_ID,
    }
}

/// The request that copies the framebuffer into the resource.
pub open spec fn transfer_spec() -> TransferToHost2d {
    TransferToHost2d {
        hdr: GpuCtrlHdr { type_: VIRTIO_GPU_CMD_TRANSFER_TO_HOST_2D, flags: 0, fence_id: 0, ctx_id: 0, padding: 0 },
        r_x: 0,
        r_y: 0,
        r_width: WIDTH,
        r_height: HEIGHT,
        offset: 0,
        resource_id: RESOURCE_ID,
        padding: 0,
    }
}

/// The request that shows the resource anew.
pub open spec fn flush_spec() -> ResourceFlush {
    ResourceFlush {
        hdr: GpuCtrlHdr { type_: VIRTIO_GPU_CMD_RESOURCE_FLUSH, flags: 0, fence_id: 0, ctx_id: 0, padding: 0 },
        r_x: 0,
        r_y: 0,
        r_width: WIDTH,
        r_height: HEIGHT,
        resource_id: RESOURCE_ID,
        padding: 0,
    }
}

/// The header of a request of type `type_`, with every other field zero.
pub fn ctrl_hdr(type_: u32) -> (h: GpuCtrlHdr)
    ensures
        h == (GpuCtrlHdr { type_: type_, flags: 0, fence_id: 0, ctx_id: 0, padding: 0 }),
{
    GpuCtrlHdr { type_, flags: 0, fence_id: 0, ctx_id: 0, padding: 0 }
}

/// The request that creates the framebuffer's resource: 800 by 600 pixels.
pub fn create_2d_request() -> (r: ResourceCreate2d)
    ensures
        r == create_2d_spec(),
{
    ResourceCreate2d {
        hdr: ctrl_hdr(VIRTIO_GPU_CMD_RESOURCE_CREATE_2D),
        resource_id: RESOURCE_ID,
        format: FORMAT_B8G8R8A8,
        width: WIDTH,
        height: HEIGHT,
    }
}

/// The request that attaches one stretch of memory to the resource.
pub fn attach_backing_request() -> (r: ResourceAttachBacking)
    ensures
        r == attach_backing_spec(),
{
    ResourceAttachBacking { hdr: ctrl_hdr(VIRTIO_GPU_CMD_RESOURCE_ATTACH_BACKING), resource_id: RESOURCE_ID, nr_entries: 1 }
}

/// The memory entry for a framebuffer at address `addr`.
pub fn framebuffer_entry(addr: u64) -> (m: MemEntry)
    ensures
        m == (MemEntry { addr: addr, length: FRAMEBUFFER_BYTES, padding: 0 }),
        m.length == WIDTH * HEIGHT * 4,
{
    MemEntry { addr, length: FRAMEBUFFER_BYTES, padding: 0 }
}

/// The request that shows the resource, whole, on scanout 0.
pub fn set_scanout_request() -> (r: SetScanout)
    ensures
        r == set_scanout_spec(),
{
    SetScanout {
        hdr: ctrl_hdr(VIRTIO_GPU_CMD_SET_SCANOUT),
        r_x: 0,
        r_y: 0,
        r_width: WIDTH,
        r_height: HEIGHT,
        scanout_id: 0,
        resource_id: RESOURCE_ID,
    }
}

/// The request that copies the whole framebuffer into the resource.
pub fn transfer_request() -> (r: TransferToHost2d)
    ensures
        r == transfer_spec(),
{
    TransferToHost2d {
        hdr: ctrl_hdr(VIRTIO_GPU_CMD_TRANSFER_TO_HOST_2D),
        r_x: 0,
        r_y: 0,
        r_width: WIDTH,
        r_height: HEIGHT,
        offset: 0,
        resource_id: RESOURCE_ID,
        padding: 0,
    }
}

/// The request that shows the whole resource anew.
pub fn flush_request() -> (r: ResourceFlush)
    ensures
        r == flush_spec(),
{
    ResourceFlush {
        hdr: ctrl_hdr(VIRTIO_GPU_CMD_RESOURCE_FLUSH),
        r_x: 0,
        r_y: 0,
        r_width: WIDTH,
        r_height: HEIGHT,
        resource_id: RESOURCE_ID,
        padding: 0,
    }
}

/// The chain that carries a request of `len` bytes at `request` and its
/// response at `response`: the request in descriptor 0, read by the device
/// and followed by descriptor 1, the response, written by the device.
pub fn request_chain(request: u64, len: u32, response: u64) -> (c: (VirtqDesc, VirtqDesc))
    ensures
        c.0 == (VirtqDesc { addr: request, len: len, flags: VIRTQ_DESC_F_NEXT, next: 1 }),
        c.1 == (VirtqDesc { addr: response, len: RESPONSE_LEN, flags: VIRTQ_DESC_F_WRITE, next: 0 }),
{
    (
        VirtqDesc { addr: request, len, flags: VIRTQ_DESC_F_NEXT, next: 1 },
        VirtqDesc { addr: response, len: RESPONSE_LEN, flags: VIRTQ_DESC_F_WRITE, next: 0 },
    )
}

/// The chain that carries the attach request of `len` bytes at `request`,
/// its memory entry of `entry_len` bytes at `entry`, and the response at
/// `response`, in descriptors 0, 1 and 2.
pub fn attach_chain(request: u64, len: u32, entry: u64, entry_len: u32, response: u64) -> (c: (
    VirtqDesc,
    VirtqDesc,
    VirtqDesc,
))
    ensures
        c.0 == (VirtqDesc { addr: request, len: len, flags: VIRTQ_DESC_F_NEXT, next: 1 }),
        c.1 == (VirtqDesc { addr: entry, len: entry_len, flags: VIRTQ_DESC_F_NEXT, next: 2 }),
        c.2 == (VirtqDesc { addr: response, len: RESPONSE_LEN, flags: VIRTQ_DESC_F_WRITE, next: 0 }),
{
    (
        VirtqDesc { addr: request, len, flags: VIRTQ_DESC_F_NEXT, next: 1 },
        VirtqDesc { addr: entry, len: entry_len, flags: VIRTQ_DESC_F_NEXT, next: 2 },
        VirtqDesc { addr: response, len: RESPONSE_LEN, flags: VIRTQ_DESC_F_WRITE, next: 0 },
    )
}

/// The first device base probed for the framebuffer device.
pub const FIRST_BASE: usize = 0x1000_1000;

/// The last device base probed.
pub const LAST_BASE: usize = 0x1000_8000;

/// The distance between two device bases.
pub const BASE_STEP: usize = 0x1000;

/// The device id of a virtio GPU.
pub const GPU_DEVICE_ID: u32 = 16;

/// Where the bring-up of the framebuffer device stands: waiting for the
/// answer to a probe of a base, or to one of the three requests sent to the
/// device found at a base; or finished, with whether it succeeded and the
/// base of the device found (0 when none was found).
#[derive(Clone, Copy, PartialEq, Eq, Structural, Debug)]
pub enum GpuInit {
    Probe(usize),
    Create(usize),
    Attach(usize),
    Scanout(usize),
    Done(bool, usize),
}

/// What the bring-up asks of the caller next: probe a base (bring up a
/// virtio device of id 16 there), send a request to the device at a base,
/// or stop with the outcome and the device's base (0 when none was found).
#[derive(Clone, Copy, PartialEq, Eq, Structural, Debug)]
pub enum GpuAction {
    ProbeBase(usize),
    SendCreate(usize, ResourceCreate2d),
    SendAttach(usize, ResourceAttachBacking),
    SendScanout(usize, SetScanout),
    Finish(bool, usize),
}

/// One step of the bring-up, given whether what was last asked succeeded:
/// the bases are probed in order from `FIRST_BASE` to `LAST_BASE`; at the
/// first that accepts, the resource is created, the framebuffer attached
/// and the scanout set, in that order; the first failure, or a probe of the
/// last base that fails, finishes with `false` (keeping the device's base
/// once one was found); the scanout's success finishes with `true`.
pub open spec fn gpu_init_spec(st: GpuInit, last_ok: bool) -> (GpuInit, GpuAction) {
    match st {
        GpuInit::Probe(b) => if last_ok {
            (GpuInit::Create(b), GpuAction::SendCreate(b, create_2d_spec()))
        } else if b < LAST_BASE {
            (GpuInit::Probe((b + BASE_STEP) as usize), GpuAction::ProbeBase((b + BASE_STEP) as usize))
        } else {
            (GpuInit::Done(false, 0), GpuAction::Finish(false, 0))
        },
        GpuInit::Create(b) => if last_ok {
            (GpuInit::Attach(b), GpuAction::SendAttach(b, attach_backing_spec()))
        } else {
            (GpuInit::Done(false, b), GpuAction::Finish(false, b))
        },
        GpuInit::Attach(b) => if last_ok {
            (GpuInit::Scanout(b), GpuAction::SendScanout(b, set_scanout_spec()))
        } else {
            (GpuInit::Done(false, b), GpuAction::Finish(false, b))
        },
        GpuInit::Scanout(b) => if last_ok {
            (GpuInit::Done(true, b), GpuAction::Finish(true, b))
        } else {
            (GpuInit::Done(false, b), GpuAction::Finish(false, b))
        },
        GpuInit::Done(ok, b) => (GpuInit::Done(ok, b), GpuAction::Finish(ok, b)),
    }
}

/// The bring-up's first state and action: probe the first base.
pub fn gpu_init_start() -> (r: (GpuInit, GpuAction))
    ensures
        r == (GpuInit::Probe(FIRST_BASE), GpuAction::ProbeBase(FIRST_BASE)),
{
    (GpuInit::Probe(FIRST_BASE), GpuAction::ProbeBase(FIRST_BASE))
}

/// One step of the bring-up of the framebuffer device.
pub fn gpu_init_step(st: GpuInit, last_ok: bool) -> (r: (GpuInit, GpuAction))
    ensures
        r == gpu_init_spec(st, last_ok),
{
    match st {
        GpuInit::Probe(b) => {
            if last_ok {
                (GpuInit::Create(b), GpuAction::SendCreate(b, create_2d_request()))
            } else if b < LAST_BASE {
                (GpuInit::Probe(b + BASE_STEP), GpuAction::ProbeBase(b + BASE_STEP))
            } else {
                (GpuInit::Done(false, 0), GpuAction::Finish(false, 0))
            }
        },
        GpuInit::Create(b) => {
            if last_ok {
                (GpuInit::Attach(b), GpuAction::SendAttach(b, attach_backing_request()))
            } else {
                (GpuInit::Done(false, b), GpuAction::Finish(false, b))
            }
        },
        GpuInit::Attach(b) => {
            if last_ok {
                (GpuInit::Scanout(b), GpuAction::SendScanout(b, set_scanout_request()))
            } else {
                (GpuInit::Done(false, b), GpuAction::Finish(false, b))
            }
        },
        GpuInit::Scanout(b) => {
            if last_ok {
                (GpuInit::Done(true, b), GpuAction::Finish(true, b))
            } else {
                (GpuInit::Done(false, b), GpuAction::Finish(false, b))
            }
        },
        GpuInit::Done(ok, b) => (GpuInit::Done(ok, b), GpuAction::Finish(ok, b)),
    }
}

/// A request of a refresh of the screen.
#[derive(Clone, Copy, PartialEq, Eq, Structural, Debug)]
pub enum FlushReq {
    Transfer(TransferToHost2d),
    Flush(ResourceFlush),
}

/// The requests a refresh sends to the device at `gpu_base`: none when no
/// device was found (base 0), else the transfer of the framebuffer and
/// then the flush.
pub fn flush_plan(gpu_base: usize) -> (r: Vec<FlushReq>)
    ensures
        gpu_base == 0 ==> r@ == Seq::<FlushReq>::empty(),
        gpu_base != 0 ==> r@ == seq![FlushReq::Transfer(transfer_spec()), FlushReq::Flush(flush_spec())],
{
    let mut r: Vec<FlushReq> = Vec::new();
    if gpu_base != 0 {
        r.push(FlushReq::Transfer(transfer_request()));
        r.push(FlushReq::Flush(flush_request()));
        assert(r@ =~= seq![FlushReq::Transfer(transfer_spec()), FlushReq::Flush(flush_spec())]);
    }
    r
}

/// The steps of a run of answers from a state.
pub open spec fn gpu_init_run(st: GpuInit, answers: Seq<bool>) -> GpuInit
    decreases answers.len(),
{
    if answers.len() == 0 {
        st
    } else {
        gpu_init_run(gpu_init_spec(st, answers[0]).0, answers.drop_first())
    }
}

/// When a base accepts and the three requests succeed, the bring-up ends
/// in success with that base.
pub proof fn law_gpu_init_success(b: usize)
    ensures
        gpu_init_run(GpuInit::Probe(b), seq![true, true, true, true]) == GpuInit::Done(true, b),
{
    reveal_with_fuel(gpu_init_run, 5);
    assert(seq![true, true, true, true].drop_first() =~= seq![true, true, true]);
    assert(seq![true, true, true].drop_first() =~= seq![true, true]);
    assert(seq![true, true].drop_first() =~= seq![true]);
    assert(seq![true].drop_first() =~= Seq::<bool>::empty());
}

/// When no base accepts, the bring-up probes the eight bases in order and
/// ends in failure with no device.
pub proof fn law_gpu_init_no_device()
    ensures
        gpu_init_run(GpuInit::Probe(FIRST_BASE), Seq::new(8, |i: int| false)) == GpuInit::Done(false, 0),
{
    let f = Seq::new(8, |i: int| false);
    reveal_with_fuel(gpu_init_run, 9);
    assert(f.drop_first() =~= Seq::new(7, |i: int| false));
    assert(Seq::new(7, |i: int| false).drop_first() =~= Seq::new(6, |i: int| false));
    assert(Seq::new(6, |i: int| false).drop_first() =~= Seq::new(5, |i: int| false));
    assert(Seq::new(5, |i: int| false).drop_first() =~= Seq::new(4, |i: int| false));
    assert(Seq::new(4, |i: int| false).drop_first() =~= Seq::new(3, |i: int| false));
    assert(Seq::new(3, |i: int| false).drop_first() =~= Seq::new(2, |i: int| false));
    assert(Seq::new(2, |i: int| false).drop_first() =~= Seq::new(1, |i: int| false));
    assert(Seq::new(1, |i: int| false).drop_first() =~= Seq::<bool>::empty());
}

/// A refused request ends the bring-up: whatever the base, when the
/// request to create the resource, to attach the framebuffer or to set the
/// scanout fails, the bring-up finishes in failure, keeping the base of
/// the device found.
pub proof fn law_gpu_request_failure_stops(b: usize)
    ensures
        gpu_init_spec(GpuInit::Create(b), false) == (GpuInit::Done(false, b), GpuAction::Finish(false, b)),
        gpu_init_spec(GpuInit::Attach(b), false) == (GpuInit::Done(false, b), GpuAction::Finish(false, b)),
        gpu_init_spec(GpuInit::Scanout(b), false) == (GpuInit::Done(false, b), GpuAction::Finish(false, b)),
{
}

/// The answers `answers` show a first success at `k`: every probe before
/// it failed, and the probe at `k` and the three requests after it
/// succeeded.
pub open spec fn first_success_at(answers: Seq<bool>, k: int) -> bool {
    &&& 0 <= k && k + 4 <= answers.len()
    &&& forall|i: int| 0 <= i < k ==> !answers[i]
    &&& answers[k] && answers[k + 1] && answers[k + 2] && answers[k + 3]
}

/// A finished bring-up stays finished.
proof fn lemma_run_done(ok: bool, b: usize, answers: Seq<bool>)
    ensures
        gpu_init_run(GpuInit::Done(ok, b), answers) == GpuInit::Done(ok, b),
    decreases answers.len(),
{
    if answers.len() > 0 {
        lemma_run_done(ok, b, answers.drop_first());
    }
}

/// From a request in flight, success needs that request and those after it
/// to succeed, at the same base.
proof fn lemma_run_requests(st: GpuInit, answers: Seq<bool>, b: usize)
    requires
        gpu_init_run(st, answers) == GpuInit::Done(true, b),
        st is Create || st is Attach || st is Scanout,
    ensures
        ({
            let (n, c) = match st {
                GpuInit::Create(c) => (3int, c),
                GpuInit::Attach(c) => (2int, c),
                GpuInit::Scanout(c) => (1int, c),
                _ => (0int, 0usize),
            };
            &&& n <= answers.len()
            &&& forall|i: int| 0 <= i < n ==> #[trigger] answers[i]
            &&& b == c
        }),
    decreases answers.len(),
{
    if answers.len() == 0 {
    } else {
        let next = gpu_init_spec(st, answers[0]).0;
        let rest = answers.drop_first();
        if !answers[0] {
            match st {
                GpuInit::Create(c) => lemma_run_done(false, c, rest),
                GpuInit::Attach(c) => lemma_run_done(false, c, rest),
                GpuInit::Scanout(c) => lemma_run_done(false, c, rest),
                _ => {},
            }
        } else {
            match st {
                GpuInit::Create(c) => {
                    lemma_run_requests(next, rest, b);
                    assert forall|i: int| 0 <= i < 3 implies #[trigger] answers[i] by {
                        if i > 0 {
                            assert(answers[i] == rest[i - 1]);
                        }
                    }
                },
                GpuInit::Attach(c) => {
                    lemma_run_requests(next, rest, b);
                    assert forall|i: int| 0 <= i < 2 implies #[trigger] answers[i] by {
                        if i > 0 {
                            assert(answers[i] == rest[i - 1]);
                        }
                    }
                },
                GpuInit::Scanout(c) => {
                    lemma_run_done(true, c, rest);
                },
                _ => {},
            }
        }
    }
}

/// From a probe of base `b0`, success at base `b` needs a first success at
/// some `k`, with `b` the `k`-th base after `b0`.
proof fn lemma_run_probe(b0: usize, answers: Seq<bool>, b: usize)
    requires
        b0 < LAST_BASE + BASE_STEP,
        gpu_init_run(GpuInit::Probe(b0), answers) == GpuInit::Done(true, b),
    ensures
        exists|k: int| #[trigger] first_success_at(answers, k) && b == b0 + k * BASE_STEP,
    decreases answers.len(),
{
    if answers.len() > 0 {
        let rest = answers.drop_first();
        if answers[0] {
            lemma_run_requests(GpuInit::Create(b0), rest, b);
            assert forall|i: int| 0 <= i < 4 implies #[trigger] answers[i] by {
                if i > 0 {
                    assert(answers[i] == rest[i - 1]);
                }
            }
            assert(first_success_at(answers, 0));
        } else if b0 < LAST_BASE {
            let b1 = (b0 + BASE_STEP) as usize;
            lemma_run_probe(b1, rest, b);
            let k = choose|k: int| #[trigger] first_success_at(rest, k) && b == b1 + k * BASE_STEP;
            assert forall|i: int| 0 <= i < k + 1 implies !answers[i] by {
                if i > 0 {
                    assert(answers[i] == rest[i - 1]);
                }
            }
            assert(answers[k + 1] == rest[k] && answers[k + 2] == rest[k + 1]);
            assert(answers[k + 3] == rest[k + 2] && answers[k + 4] == rest[k + 3]);
            assert(first_success_at(answers, k + 1));
        } else {
            lemma_run_done(false, 0, rest);
        }
    }
}

/// The bring-up succeeds at base `b` only when it was earned: the probes of
/// the bases before `b` failed, and the probe of `b` and the create,
/// attach and scanout requests after it all succeeded, in that order; `b`
/// is the `k`-th base after `FIRST_BASE` for the first success at `k`.
pub proof fn law_gpu_init_success_earned(answers: Seq<bool>, b: usize)
    requires
        gpu_init_run(GpuInit::Probe(FIRST_BASE), answers) == GpuInit::Done(true, b),
    ensures
        exists|k: int| #[trigger] first_success_at(answers, k) && b == FIRST_BASE + k * BASE_STEP,
{
    lemma_run_probe(FIRST_BASE, answers, b);
}

} // verus!

use lib::gpu_cmd::{
    attach_backing_request, attach_chain, create_2d_request, ctrl_hdr, flush_request, framebuffer_entry, request_chain,
    set_scanout_request, transfer_request, VIRTIO_GPU_CMD_RESOURCE_CREATE_2D, VIRTIO_GPU_CMD_RESOURCE_FLUSH,
};
use lib::virtio::{VirtqDesc, VIRTQ_DESC_F_NEXT, VIRTQ_DESC_F_WRITE};

#[test]
fn request_records() {
    let c = create_2d_request();
    assert_eq!(c.hdr, ctrl_hdr(VIRTIO_GPU_CMD_RESOURCE_CREATE_2D));
    assert_eq!(c.hdr.type_, 0x0101);
    assert_eq!((c.resource_id, c.format, c.width, c.height), (1, 1, 800, 600));
    let a = attach_backing_request();
    assert_eq!((a.hdr.type_, a.resource_id, a.nr_entries), (0x0106, 1, 1));
    let m = framebuffer_entry(0x8010_0000);
    assert_eq!((m.addr, m.length, m.padding), (0x8010_0000, 800 * 600 * 4, 0));
    let s = set_scanout_request();
    assert_eq!((s.hdr.type_, s.r_width, s.r_height, s.scanout_id, s.resource_id), (0x0103, 800, 600, 0, 1));
    let t = transfer_request();
    assert_eq!((t.hdr.type_, t.offset, t.r_width, t.r_height), (0x0105, 0, 800, 600));
    let f = flush_request();
    assert_eq!(f.hdr, ctrl_hdr(VIRTIO_GPU_CMD_RESOURCE_FLUSH));
    assert_eq!(f.hdr.fence_id, 0);
}

#[test]
fn descriptor_chains() {
    let (d0, d1) = request_chain(0x1000, 40, 0x2000);
    assert_eq!(d0, VirtqDesc { addr: 0x1000, len: 40, flags: VIRTQ_DESC_F_NEXT, next: 1 });
    assert_eq!(d1, VirtqDesc { addr: 0x2000, len: 24, flags: VIRTQ_DESC_F_WRITE, next: 0 });
    let (e0, e1, e2) = attach_chain(0x1000, 32, 0x3000, 16, 0x2000);
    assert_eq!(e0.next, 1);
    assert_eq!(e1, VirtqDesc { addr: 0x3000, len: 16, flags: VIRTQ_DESC_F_NEXT, next: 2 });
    assert_eq!(e2.flags, VIRTQ_DESC_F_WRITE);
}

use lib::gpu_cmd::{
    flush_plan, gpu_init_start, gpu_init_step, FlushReq, GpuAction, GpuInit, FIRST_BASE, LAST_BASE,
};

#[test]
fn bring_up_probes_every_base_in_order_then_gives_up() {
    let (mut st, mut act) = gpu_init_start();
    let mut probed = Vec::new();
    loop {
        match act {
            GpuAction::ProbeBase(b) => probed.push(b),
            GpuAction::Finish(ok, base) => {
                assert!(!ok);
                assert_eq!(base, 0);
                break;
            }
            _ => panic!("no request expected"),
        }
        let next = gpu_init_step(st, false);
        st = next.0;
        act = next.1;
    }
    let want: Vec<usize> = (0..8).map(|i| 0x1000_1000 + i * 0x1000).collect();
    assert_eq!(probed, want);
    assert_eq!((FIRST_BASE, LAST_BASE), (0x1000_1000, 0x1000_8000));
}

#[test]
fn bring_up_sends_three_requests_at_the_first_device() {
    let (st, _) = gpu_init_start();
    let (st, act) = gpu_init_step(st, false);
    assert_eq!(act, GpuAction::ProbeBase(0x1000_2000));
    let (st, act) = gpu_init_step(st, true);
    assert!(matches!(act, GpuAction::SendCreate(0x1000_2000, r) if r == create_2d_request()));
    let (st, act) = gpu_init_step(st, true);
    assert!(matches!(act, GpuAction::SendAttach(0x1000_2000, r) if r == attach_backing_request()));
    let (st, act) = gpu_init_step(st, true);
    assert!(matches!(act, GpuAction::SendScanout(0x1000_2000, r) if r == set_scanout_request()));
    let (st, act) = gpu_init_step(st, true);
    assert_eq!(act, GpuAction::Finish(true, 0x1000_2000));
    assert_eq!(gpu_init_step(st, false).1, GpuAction::Finish(true, 0x1000_2000));
}

#[test]
fn a_failed_request_ends_the_bring_up_but_keeps_the_device() {
    let (st, _) = gpu_init_start();
    let (st, _) = gpu_init_step(st, true);
    let (st, act) = gpu_init_step(st, true);
    assert!(matches!(act, GpuAction::SendAttach(..)));
    let (st, act) = gpu_init_step(st, false);
    assert_eq!(act, GpuAction::Finish(false, 0x1000_1000));
    assert_eq!(st, GpuInit::Done(false, 0x1000_1000));
}

#[test]
fn a_refresh_sends_nothing_without_a_device() {
    assert!(flush_plan(0).is_empty());
    let plan = flush_plan(0x1000_1000);
    assert_eq!(plan.len(), 2);
    assert_eq!(plan[0], FlushReq::Transfer(transfer_request()));
    assert_eq!(plan[1], FlushReq::Flush(flush_request()));
}

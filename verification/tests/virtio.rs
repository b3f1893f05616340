use hyperion_kernel::drivers::virtio::blk::{queue_size, VirtioBlk, QUEUE_SIZE as BLK_QUEUE_SIZE};
use hyperion_kernel::drivers::virtio::gpu::{
    attach_backing, display_size, get_display_info, resource_create_2d, resp_ok_nodata, test_pattern,
};
use hyperion_kernel::drivers::virtio::mmio::{
    InitError, ProbeHeader, RegWrite, Transport, REG_DRIVER_FEATURES, REG_DRIVER_FEATURES_SEL, REG_QUEUE_DESC_HIGH,
    REG_QUEUE_DESC_LOW, REG_QUEUE_NOTIFY, REG_QUEUE_READY, REG_QUEUE_SEL, REG_STATUS, STATUS_ACK, STATUS_DRIVER,
    STATUS_DRIVER_OK, STATUS_FEATURES_OK, VIRTIO_MAGIC,
};
use hyperion_kernel::drivers::virtio::net::{setup_rx, VirtioNet, HDR_BYTES, MTU, RX_BUF_SIZE};
use hyperion_kernel::drivers::virtio::queue::{Virtqueue, VRING_DESC_F_NEXT, VRING_DESC_F_WRITE};

fn le16(b: &[u8], off: usize) -> u16 {
    u16::from_le_bytes([b[off], b[off + 1]])
}

fn free_list(q: &Virtqueue) -> Vec<u16> {
    let mut v = Vec::new();
    let mut h = q.free_head;
    for _ in 0..q.num_free {
        v.push(h);
        h = q.desc[h as usize].next;
    }
    v
}

fn avail(q: &Virtqueue) -> &[u8] {
    &q.ring[q.avail_off..q.avail_off + 4 + 2 * q.size as usize + 2]
}

fn used(q: &Virtqueue) -> &[u8] {
    &q.ring[q.used_off..q.used_off + 4 + 8 * q.size as usize + 2]
}

/// Play the device: report that chain `id` was used with `len` bytes.
fn device_uses(q: &mut Virtqueue, id: u32, len: u32) {
    let idx = le16(used(q), 2);
    let slot = (idx % q.size) as usize;
    let off = q.used_off + 4 + 8 * slot;
    q.ring[off..off + 4].copy_from_slice(&id.to_le_bytes());
    q.ring[off + 4..off + 8].copy_from_slice(&len.to_le_bytes());
    let next = idx.wrapping_add(1);
    let at = q.used_off + 2;
    q.ring[at..at + 2].copy_from_slice(&next.to_le_bytes());
}

#[test]
fn new_queue_has_every_descriptor_free() {
    let q = Virtqueue::new(8);
    assert_eq!(q.num_free, 8);
    assert_eq!(free_list(&q), vec![0, 1, 2, 3, 4, 5, 6, 7]);
    assert_eq!(avail(&q).len(), 4 + 2 * 8 + 2);
    assert_eq!(used(&q).len(), 4 + 8 * 8 + 2);
    assert!(avail(&q).iter().all(|b| *b == 0));
    assert!(used(&q).iter().all(|b| *b == 0));
    assert!(!q.has_used());
}

#[test]
fn rings_share_one_page_aligned_buffer() {
    for size in [1u16, 2, 8, 256] {
        let q = Virtqueue::new(size);
        let (d, a, u) = (q.desc_phys(), q.avail_phys(), q.used_phys());
        let start = q.ring.as_ptr() as u64;
        let end = start + q.ring.len() as u64;
        assert_eq!(q.base, start);
        assert_ne!(d, 0);
        assert_eq!(d % 4096, 0);
        assert_eq!(a, d + 16 * size as u64);
        assert!(u >= a + 6 + 2 * size as u64);
        assert_eq!(u % 4, 0);
        assert!(start <= d);
        assert_eq!(u + 6 + 8 * size as u64, end);
    }
}

#[test]
fn published_descriptors_reach_the_shared_table() {
    let mut q = Virtqueue::new(4);
    let h = q.alloc_chain(2).unwrap();
    q.set_desc(h, 0x1122_3344_5566_7788, 0x99aa_bbcc, VRING_DESC_F_NEXT | VRING_DESC_F_WRITE);
    let before = (q.desc_phys(), q.avail_phys(), q.used_phys());
    q.push_avail(h);
    assert_eq!((q.desc_phys(), q.avail_phys(), q.used_phys()), before);
    let t = q.desc_off + 16 * h as usize;
    assert_eq!(
        &q.ring[t..t + 16],
        &[0x88, 0x77, 0x66, 0x55, 0x44, 0x33, 0x22, 0x11, 0xcc, 0xbb, 0xaa, 0x99, 3, 0, 1, 0]
    );
    let t1 = q.desc_off + 16;
    assert_eq!(&q.ring[t1..t1 + 16], &[0, 0, 0, 0, 0, 0, 0, 0, 0, 0, 0, 0, 0, 0, 0, 0]);
}

#[test]
fn alloc_chain_links_descriptors() {
    let mut q = Virtqueue::new(8);
    assert_eq!(q.alloc_chain(3), Some(0));
    assert_eq!(q.num_free, 5);
    assert_eq!(q.desc[0].flags, VRING_DESC_F_NEXT);
    assert_eq!(q.desc[0].next, 1);
    assert_eq!(q.desc[1].next, 2);
    assert_eq!(q.desc[2].flags, 0);
    assert_eq!(free_list(&q), vec![3, 4, 5, 6, 7]);
}

#[test]
fn alloc_chain_refuses_zero_and_too_many() {
    let mut q = Virtqueue::new(4);
    assert_eq!(q.alloc_chain(0), None);
    assert_eq!(q.alloc_chain(5), None);
    assert_eq!(q.num_free, 4);
    assert_eq!(q.alloc_desc(), Some(0));
    assert_eq!(q.num_free, 3);
    assert_eq!(q.alloc_desc(), Some(1));
    assert_eq!(q.alloc_desc(), Some(2));
    assert_eq!(q.alloc_desc(), Some(3));
    assert_eq!(q.num_free, 0);
    assert_eq!(q.free_head, 0);
    assert_eq!(q.alloc_desc(), None);
}

#[test]
fn free_after_alloc_restores_the_free_count() {
    let mut q = Virtqueue::new(8);
    let h = q.alloc_chain(3).unwrap();
    q.set_desc(2, 0x2000, 8, VRING_DESC_F_WRITE);
    q.free_chain(h);
    assert_eq!(q.num_free, 8);
    assert_eq!(free_list(&q), vec![2, 1, 0, 3, 4, 5, 6, 7]);
    for i in 0..3 {
        assert_eq!(q.desc[i].flags, VRING_DESC_F_NEXT);
    }
    assert_eq!((q.desc[2].addr, q.desc[2].len), (0x2000, 8));
}

#[test]
fn avail_and_used_rings() {
    let mut q = Virtqueue::new(4);
    let h = q.alloc_chain(2).unwrap();
    q.set_desc(h, 0x1000, 16, VRING_DESC_F_NEXT);
    assert_eq!(q.desc[h as usize].addr, 0x1000);
    assert_eq!(q.desc[h as usize].len, 16);
    assert_eq!(q.desc[h as usize].next, 1);
    let ao = q.avail_off;
    q.ring[ao] = 1;
    q.ring[ao + 12] = 0x5a;
    q.push_avail(h);
    assert_eq!(le16(avail(&q), 2), 1);
    assert_eq!(le16(avail(&q), 4), h);
    assert_eq!((avail(&q)[0], avail(&q)[1], avail(&q)[12]), (1, 0, 0x5a));
    assert_eq!(q.pop_used(), None);
    device_uses(&mut q, h as u32, 42);
    assert!(q.has_used());
    assert_eq!(q.pop_used(), Some((h as u32, 42)));
    assert_eq!(q.last_used_idx, 1);
    assert_eq!(q.pop_used(), None);
}

#[test]
fn mmio_probe_and_init() {
    assert_eq!(
        Transport::probe(VIRTIO_MAGIC, 2, 2, 0x554d4551),
        Some(ProbeHeader { device_id: 2, vendor_id: 0x554d4551, version: 2 })
    );
    assert_eq!(Transport::probe(0, 2, 2, 0), None);
    assert_eq!(Transport::probe(VIRTIO_MAGIC, 0, 2, 0), None);
    let t = Transport::new(0x0a00_0000);
    assert_eq!(t.base(), 0x0a00_0000);
    assert_eq!(t.init_begin(1, 2, 2).err(), Some(InitError::BadMagic));
    assert_eq!(t.init_begin(VIRTIO_MAGIC, 3, 2).err(), Some(InitError::UnsupportedVersion));
    assert_eq!(t.init_begin(VIRTIO_MAGIC, 1, 0).err(), Some(InitError::NoDevice));
    let w = t.init_begin(VIRTIO_MAGIC, 2, 1).unwrap();
    assert_eq!(
        w,
        vec![
            RegWrite { offset: REG_STATUS, value: 0 },
            RegWrite { offset: REG_STATUS, value: STATUS_ACK },
            RegWrite { offset: REG_STATUS, value: STATUS_ACK | STATUS_DRIVER },
        ]
    );
    assert_eq!(InitError::QueueTooSmall.message(), "virtio: queue too small");
    assert_eq!(InitError::BadMagic.message(), "virtio: bad magic");
}

#[test]
fn mmio_features_and_queues() {
    let t = Transport::new(0);
    assert_eq!(t.read_features(0x10, 0x1), 0x1_0000_0010);
    let w = t.write_features(0x2_0000_0003, STATUS_ACK | STATUS_DRIVER);
    assert_eq!(w[0], RegWrite { offset: REG_DRIVER_FEATURES_SEL, value: 0 });
    assert_eq!(w[1], RegWrite { offset: REG_DRIVER_FEATURES, value: 3 });
    assert_eq!(w[3], RegWrite { offset: REG_DRIVER_FEATURES, value: 2 });
    assert_eq!(w[4].value, STATUS_ACK | STATUS_DRIVER | STATUS_FEATURES_OK);
    assert_eq!(t.queue_max(1), RegWrite { offset: REG_QUEUE_SEL, value: 1 });
    let c = t.queue_configure(0, 16, 0x1_2345_6789, 0, 0);
    assert_eq!(c.len(), 9);
    assert_eq!(c[2], RegWrite { offset: REG_QUEUE_DESC_LOW, value: 0x2345_6789 });
    assert_eq!(c[3], RegWrite { offset: REG_QUEUE_DESC_HIGH, value: 1 });
    assert_eq!(c[8], RegWrite { offset: REG_QUEUE_READY, value: 1 });
    assert_eq!(t.queue_notify(0), RegWrite { offset: REG_QUEUE_NOTIFY, value: 0 });
    assert_eq!(t.driver_ok(3).value, 3 | STATUS_DRIVER_OK);
    assert_eq!(t.config_read_u64(5, 1), 0x1_0000_0005);
}

fn blk() -> VirtioBlk {
    VirtioBlk { transport: Transport::new(0), queue: Virtqueue::new(16), capacity_sectors: 8 }
}

#[test]
fn blk_read_request() {
    let mut d = blk();
    assert_eq!(d.capacity_sectors(), 8);
    let mut buf = vec![0u8; 512];
    let req = d.read_sectors(3, 1, &mut buf).unwrap();
    assert_eq!(req.head, 0);
    assert_eq!(req.header, vec![0, 0, 0, 0, 0, 0, 0, 0, 3, 0, 0, 0, 0, 0, 0, 0]);
    assert_eq!(d.queue.num_free, 13);
    assert_eq!(d.queue.desc[1].len, 512);
    assert_eq!(d.queue.desc[1].flags, VRING_DESC_F_NEXT | VRING_DESC_F_WRITE);
    assert_eq!(d.queue.desc[2].flags, VRING_DESC_F_WRITE);
    assert_eq!(le16(avail(&d.queue), 2), 1);
    assert_eq!(le16(avail(&d.queue), 4), 0);
    assert_eq!(le16(avail(&d.queue), 6), 0);
    assert_eq!((d.queue.desc[0].len, d.queue.desc[0].flags), (16, VRING_DESC_F_NEXT));
    assert_eq!(d.queue.desc[2].len, 1);
    device_uses(&mut d.queue, 0, 513);
    assert_eq!(d.complete(req, 0), Ok(()));
    assert_eq!(d.queue.num_free, 16);
}

#[test]
fn blk_write_request_and_device_error() {
    let mut d = blk();
    let data = vec![0x5au8; 1024];
    let req = d.write_sectors(0x1_0000_0001, 2, &data).unwrap();
    assert_eq!(req.header, vec![1, 0, 0, 0, 0, 0, 0, 0, 1, 0, 0, 0, 1, 0, 0, 0]);
    assert_eq!(req.data, data);
    assert_eq!(d.queue.desc[1].len, 1024);
    assert_eq!(d.queue.desc[1].flags, VRING_DESC_F_NEXT);
    device_uses(&mut d.queue, 0, 1);
    assert_eq!(d.complete(req, 1), Err("virtio-blk: device error"));
}

#[test]
fn blk_refuses_small_buffers_and_full_queue() {
    let mut d = blk();
    let mut small = vec![0u8; 100];
    assert_eq!(d.read_sectors(0, 1, &mut small).err(), Some("buffer too small"));
    assert_eq!(d.write_sectors(0, 1, &small).err(), Some("buffer too small"));
    let mut buf = vec![0u8; 512];
    let mut reqs = Vec::new();
    for _ in 0..5 {
        reqs.push(d.read_sectors(0, 1, &mut buf).unwrap());
    }
    assert_eq!(d.queue.num_free, 1);
    assert_eq!(d.read_sectors(0, 1, &mut buf).err(), Some("virtio-blk: virtqueue full"));
    assert_eq!(d.write_sectors(0, 1, &buf).err(), Some("virtio-blk: virtqueue full"));
    let mut small2 = vec![7u8; 100];
    assert!(d.read_sectors(0, 1, &mut small2).is_err());
    assert_eq!(small2, vec![7u8; 100]);
}

#[test]
fn blk_queue_size() {
    assert_eq!(queue_size(0), None);
    assert_eq!(queue_size(8), Some(8));
    assert_eq!(queue_size(256), Some(BLK_QUEUE_SIZE));
}

#[test]
fn net_send_and_receive() {
    let (rx, bufs) = setup_rx(4);
    assert_eq!(rx.num_free, 0);
    assert_eq!(bufs.len(), 4);
    assert_eq!(bufs[0].len(), RX_BUF_SIZE);
    assert_eq!(le16(avail(&rx), 2), 4);
    let mut n = VirtioNet { transport: Transport::new(0), rx, tx: Virtqueue::new(4), mac: [1, 2, 3, 4, 5, 6] };
    assert_eq!(n.mac_address(), [1, 2, 3, 4, 5, 6]);
    let tx = n.send(b"frame").unwrap();
    assert_eq!(tx.len, 5);
    assert_eq!(&tx.buf[..HDR_BYTES], &[0u8; HDR_BYTES]);
    assert_eq!(&tx.buf[HDR_BYTES..], b"frame");
    assert_eq!(n.tx.num_free, 3);
    assert_eq!(le16(avail(&n.tx), 2), 1);
    assert_eq!(le16(avail(&n.tx), 4), tx.head);
    device_uses(&mut n.tx, tx.head as u32, 0);
    n.send_complete(tx);
    assert_eq!(n.tx.num_free, 4);
    assert!(n.send(&vec![0u8; MTU + 1]).is_err());

    let mut bufs = bufs;
    bufs[2][HDR_BYTES..HDR_BYTES + 3].copy_from_slice(b"abc");
    let mut out = [0u8; 8];
    assert!(n.rx_entry_ok(&bufs, out.len()));
    assert_eq!(n.recv(&bufs, &mut out), None);
    device_uses(&mut n.rx, 2, (HDR_BYTES + 3) as u32);
    assert_eq!(n.rx.peek_used(), Some((2, (HDR_BYTES + 3) as u32)));
    assert!(n.rx_entry_ok(&bufs, out.len()));
    assert!(!n.rx_entry_ok(&bufs[..2].to_vec(), out.len()));
    let before = le16(avail(&n.rx), 2);
    assert_eq!(n.recv(&bufs, &mut out), Some(3));
    assert_eq!(&out[..3], b"abc");
    assert_eq!(le16(avail(&n.rx), 2), before.wrapping_add(1));
    device_uses(&mut n.rx, 9, 20);
    assert!(!n.rx_entry_ok(&bufs, out.len()));
}

#[test]
fn gpu_commands() {
    let g = get_display_info();
    assert_eq!(g.len(), 24);
    assert_eq!(&g[..4], &[0x00, 0x01, 0, 0]);
    let c = resource_create_2d(640, 480);
    assert_eq!(c.len(), 40);
    assert_eq!(&c[24..28], &[1, 0, 0, 0]);
    assert_eq!(&c[28..32], &[2, 0, 0, 0]);
    assert_eq!(&c[32..36], &640u32.to_le_bytes());
    assert_eq!(&c[36..40], &480u32.to_le_bytes());
    let a = attach_backing(0x1122_3344_5566_7788, 4096);
    assert_eq!(a.len(), 48);
    assert_eq!(&a[32..40], &0x1122_3344_5566_7788u64.to_le_bytes());
    assert_eq!(&a[40..44], &4096u32.to_le_bytes());
}

#[test]
fn gpu_responses() {
    let mut ok = vec![0u8; 24];
    ok[..4].copy_from_slice(&0x1100u32.to_le_bytes());
    assert!(resp_ok_nodata(&ok));
    assert!(!resp_ok_nodata(&ok[..10]));
    ok[1] = 0;
    assert!(!resp_ok_nodata(&ok));
    let mut info = vec![0u8; 408];
    info[..4].copy_from_slice(&0x1101u32.to_le_bytes());
    assert_eq!(display_size(&info), Ok((1024, 768)));
    info[32..36].copy_from_slice(&800u32.to_le_bytes());
    info[36..40].copy_from_slice(&600u32.to_le_bytes());
    assert_eq!(display_size(&info), Ok((800, 600)));
    assert!(display_size(&info[..100]).is_err());
    info[0] = 0;
    assert!(display_size(&info).is_err());
}

#[test]
fn gpu_test_pattern() {
    let (w, h) = (4u32, 2u32);
    let mut px = vec![0u8; (w * h * 4) as usize];
    test_pattern(&mut px, w, h);
    assert_eq!(&px[0..4], &[0, 0, 0, 0]);
    let i = ((1 * w + 3) * 4) as usize;
    assert_eq!(&px[i..i + 4], &[(3 ^ 1) as u8, (255 / 2) as u8, (3 * 255 / 4) as u8, 0]);
}

use hyperion_kernel::drivers::virtio::blk::{blk_init_step, BlkAction, BlkEvent, BlkInit};
use hyperion_kernel::drivers::virtio::gpu::{gpu_init_step, set_scanout, GpuAction, GpuEvent, GpuInit};
use hyperion_kernel::drivers::virtio::mmio::{driver_for, slot_base, DriverKind, VIRTIO_ID_BLOCK, VIRTIO_ID_GPU, VIRTIO_ID_NET};
use hyperion_kernel::drivers::virtio::net::{net_init_step, NetAction, NetEvent, NetInit, QUEUE_RX};

fn ok_nodata() -> Vec<u8> {
    let mut r = vec![0u8; 24];
    r[..4].copy_from_slice(&0x1100u32.to_le_bytes());
    r
}

#[test]
fn slots_and_drivers() {
    assert_eq!(slot_base(0), 0x0a00_0000);
    assert_eq!(slot_base(31), 0x0a00_3e00);
    assert_eq!(driver_for(VIRTIO_ID_BLOCK), Some(DriverKind::Block));
    assert_eq!(driver_for(VIRTIO_ID_NET), Some(DriverKind::Net));
    assert_eq!(driver_for(VIRTIO_ID_GPU), Some(DriverKind::Gpu));
    assert_eq!(driver_for(3), None);
}

#[test]
fn gpu_bring_up_sequence() {
    let t = Transport::new(0x0a00_0000);
    let (s, a) = gpu_init_step(&t, GpuInit::Start, GpuEvent::Ident { magic: VIRTIO_MAGIC, version: 2, device_id: 16 });
    assert!(matches!(s, GpuInit::Features));
    match a {
        GpuAction::ReadFeatures { writes } => assert_eq!(writes.len(), 3),
        _ => panic!("expected feature read"),
    }
    let (s, a) = gpu_init_step(&t, s, GpuEvent::Features { lo: 0xffff_ffff, hi: 0x3, status: 3 });
    match a {
        GpuAction::ReadQueueMax { writes } => {
            assert_eq!(writes.len(), 6);
            assert_eq!(writes[1], RegWrite { offset: REG_DRIVER_FEATURES, value: 0 });
            assert_eq!(writes[3], RegWrite { offset: REG_DRIVER_FEATURES, value: 1 });
            assert_eq!(writes[4], RegWrite { offset: REG_STATUS, value: 3 | STATUS_FEATURES_OK });
            assert_eq!(writes[5], RegWrite { offset: REG_QUEUE_SEL, value: 0 });
        }
        _ => panic!("expected queue-size read"),
    }
    let (s, a) = gpu_init_step(&t, s, GpuEvent::QueueMax { max: 64, status: 11 });
    match a {
        GpuAction::SetUpAndSend { size, driver_ok, cmd, resp_size } => {
            assert_eq!(size, 16);
            assert_eq!(driver_ok, RegWrite { offset: REG_STATUS, value: 15 });
            assert_eq!(cmd, get_display_info());
            assert_eq!(resp_size, 408);
        }
        _ => panic!("expected queue set-up"),
    }
    let mut info = vec![0u8; 408];
    info[..4].copy_from_slice(&0x1101u32.to_le_bytes());
    info[32..36].copy_from_slice(&640u32.to_le_bytes());
    info[36..40].copy_from_slice(&480u32.to_le_bytes());
    let (s, a) = gpu_init_step(&t, s, GpuEvent::Response { resp: info });
    assert!(matches!(a, GpuAction::Allocate { width: 640, height: 480 }));
    let (s, a) = gpu_init_step(&t, s, GpuEvent::Allocated { addr: 0x5000_0000 });
    match a {
        GpuAction::Send { cmd, .. } => assert_eq!(cmd, resource_create_2d(640, 480)),
        _ => panic!("expected create"),
    }
    let (s, a) = gpu_init_step(&t, s, GpuEvent::Response { resp: ok_nodata() });
    match a {
        GpuAction::Send { cmd, .. } => assert_eq!(cmd, attach_backing(0x5000_0000, 640 * 480 * 4)),
        _ => panic!("expected attach"),
    }
    let (s, a) = gpu_init_step(&t, s, GpuEvent::Response { resp: ok_nodata() });
    match a {
        GpuAction::Send { cmd, .. } => assert_eq!(cmd, set_scanout(640, 480)),
        _ => panic!("expected scanout"),
    }
    let (s, a) = gpu_init_step(&t, s, GpuEvent::Response { resp: ok_nodata() });
    assert!(matches!(s, GpuInit::Ready { width: 640, height: 480 }));
    assert!(matches!(a, GpuAction::Finish { width: 640, height: 480 }));
}

#[test]
fn gpu_bring_up_failures() {
    let t = Transport::new(0);
    let (s, a) = gpu_init_step(&t, GpuInit::Start, GpuEvent::Ident { magic: 0, version: 2, device_id: 16 });
    assert!(matches!(s, GpuInit::Failed { reason: "init_begin failed" }));
    assert!(matches!(a, GpuAction::Stop { reason: "init_begin failed" }));
    let (_, a) = gpu_init_step(&t, GpuInit::QueueMax, GpuEvent::QueueMax { max: 0, status: 11 });
    assert!(matches!(a, GpuAction::Stop { reason: "virtio-gpu: no controlq" }));
    let (_, a) = gpu_init_step(&t, GpuInit::DisplayInfo, GpuEvent::Response { resp: vec![0; 10] });
    assert!(matches!(a, GpuAction::Stop { reason: "virtio-gpu: short response" }));
    let (_, a) = gpu_init_step(&t, GpuInit::Create { width: 1, height: 1, addr: 0 }, GpuEvent::Response { resp: vec![0; 24] });
    assert!(matches!(a, GpuAction::Stop { reason: "virtio-gpu: RESOURCE_CREATE_2D failed" }));
    let (_, a) = gpu_init_step(&t, GpuInit::Attach { width: 1, height: 1 }, GpuEvent::Response { resp: vec![] });
    assert!(matches!(a, GpuAction::Stop { reason: "virtio-gpu: RESOURCE_ATTACH_BACKING failed" }));
    let (_, a) = gpu_init_step(&t, GpuInit::Scanout { width: 1, height: 1 }, GpuEvent::Response { resp: vec![0; 24] });
    assert!(matches!(a, GpuAction::Stop { reason: "virtio-gpu: SET_SCANOUT failed" }));
}

#[test]
fn blk_bring_up_sequence() {
    let t = Transport::new(0);
    let (s, _) = blk_init_step(&t, BlkInit::Start, BlkEvent::Ident { magic: VIRTIO_MAGIC, version: 1, device_id: 2 });
    assert_eq!(s, BlkInit::Features);
    let (s, _) = blk_init_step(&t, s, BlkEvent::Features { lo: 0, hi: 1, status: 3 });
    assert_eq!(s, BlkInit::QueueMax);
    let (s, a) = blk_init_step(&t, s, BlkEvent::QueueMax { max: 8 });
    assert_eq!(s, BlkInit::Capacity { size: 8 });
    assert!(matches!(a, BlkAction::ConfigureAndReadCapacity { size: 8 }));
    let (s, a) = blk_init_step(&t, s, BlkEvent::Capacity { lo: 0x800, hi: 0, status: 11 });
    assert_eq!(s, BlkInit::Ready { capacity: 0x800 });
    match a {
        BlkAction::Finish { capacity, driver_ok } => {
            assert_eq!(capacity, 0x800);
            assert_eq!(driver_ok.value, 15);
        }
        _ => panic!("expected finish"),
    }
    let (s, a) = blk_init_step(&t, BlkInit::QueueMax, BlkEvent::QueueMax { max: 0 });
    assert_eq!(s, BlkInit::Failed { missing_queue: true });
    assert!(matches!(a, BlkAction::Stop { reason: "virtio-blk: no requestq" }));
    let (s, _) = blk_init_step(&t, BlkInit::Start, BlkEvent::Ident { magic: VIRTIO_MAGIC, version: 9, device_id: 2 });
    assert_eq!(s, BlkInit::Failed { missing_queue: false });
}

#[test]
fn net_bring_up_sequence() {
    let t = Transport::new(0);
    let (s, _) = net_init_step(&t, NetInit::Start, NetEvent::Ident { magic: VIRTIO_MAGIC, version: 2, device_id: 1 });
    assert!(matches!(s, NetInit::Features));
    let (s, a) = net_init_step(&t, s, NetEvent::Features { lo: 0x20, hi: 1, status: 3 });
    match a {
        NetAction::ReadMacAndQueueMax { writes, select } => {
            assert_eq!(writes.len(), 5);
            assert_eq!(select, RegWrite { offset: REG_QUEUE_SEL, value: QUEUE_RX });
        }
        _ => panic!("expected mac read"),
    }
    let mac = [0x52, 0x54, 0, 0x12, 0x34, 0x56];
    let (s, a) = net_init_step(&t, s, NetEvent::MacAndQueueMax { mac, max: 256, status: 11 });
    assert!(matches!(s, NetInit::Ready { size: 16, .. }));
    assert!(matches!(a, NetAction::SetUpQueues { size: 16, .. }));
    let (_, a) = net_init_step(&t, NetInit::MacAndQueueMax, NetEvent::MacAndQueueMax { mac, max: 0, status: 11 });
    assert!(matches!(a, NetAction::Stop { reason: "virtio-net: no rx queue" }));
}

use kernel::mem::{PageManager, PhysMem, RAM};
use kernel::virtio::{
    check_device, virtio_blk_init, virtq_init, virtq_is_busy, virtq_kick,
    DiskRequest, RegOp, VirtioBlk, VirtioError, VirtioLayout, VIRTIO_MAGIC,
    VIRTIO_REG_DEVICE_STATUS, VIRTIO_REG_QUEUE_NOTIFY, VIRTIO_REG_QUEUE_PFN, VIRTIO_REG_QUEUE_SEL,
    VIRTQ_DESC_F_NEXT, VIRTQ_DESC_F_WRITE,
};

fn manager(next: usize) -> PageManager {
    PageManager { ram: RAM { entry_point: 0x8000_0000, end_point: 0x8400_0000 }, next_addr: next, oom_reports: 0 }
}

fn layout() -> VirtioLayout {
    // the sizes of the driver's page-aligned structures
    VirtioLayout { virtq: 0x13000, desc: 0x1000, avail: 0x1000, used: 0x1000, blk_req: 0x1000 }
}

#[test]
fn check_device_reports_each_mismatch() {
    assert_eq!(check_device(0, 1, 2), Err(VirtioError::InvalidMagic));
    assert_eq!(check_device(VIRTIO_MAGIC, 2, 2), Err(VirtioError::InvalidVersion));
    assert_eq!(check_device(VIRTIO_MAGIC, 1, 1), Err(VirtioError::InvalidDeviceId));
    assert_eq!(check_device(VIRTIO_MAGIC, 1, 2), Ok(()));
}

#[test]
fn virtq_init_allocates_and_programs_queue() {
    let mut mem = PhysMem::new();
    let mut mm = manager(0x8010_0000);
    let (paddr, vq, ops) = virtq_init(&mut mm, &mut mem, 3, &layout());
    assert_eq!(paddr, 0x8010_0000);
    assert_eq!(mm.next_addr, 0x8011_3000);
    assert_eq!(vq.queue_index, 3);
    assert_eq!(vq.used_index, 0x8010_0000 + 0x13000 * (0x1000 * 16 + 0x1000 + 0x1000 + 8));
    assert_eq!(vq.paddr, 0x8010_0000);
    assert_eq!(vq.avail, 0x8010_0000 + 0x1000 * 16);
    assert_eq!(vq.used, 0x8010_0000 + 0x1000 * 17);
    assert_eq!(vq.last_used_index, 0);
    assert_eq!(ops.len(), 4);
    assert_eq!(ops[0], RegOp::Write32 { offset: VIRTIO_REG_QUEUE_SEL, value: 3 });
    assert_eq!(ops[3], RegOp::Write32 { offset: VIRTIO_REG_QUEUE_PFN, value: 0x8010_0000 });
}

#[test]
fn blk_init_takes_queue_pages_once() {
    let mut mem = PhysMem::new();
    let mut mm = manager(0x8010_0000);
    let (dev, _) = virtio_blk_init(&mut mm, &mut mem, &layout(), VIRTIO_MAGIC, 1, 2);
    assert_eq!(dev.vq.queue_index, 0);
    assert_eq!(mm.next_addr, 0x8011_3000);
    assert_eq!(mm.oom_reports, 0);
}

#[test]
fn blk_init_status_sequence() {
    let mut mem = PhysMem::new();
    let mut mm = manager(0x8010_0000);
    let (mut dev, ops) = virtio_blk_init(&mut mm, &mut mem, &layout(), VIRTIO_MAGIC, 1, 2);
    assert_eq!(ops.len(), 9);
    assert_eq!(ops[0], RegOp::Write32 { offset: VIRTIO_REG_DEVICE_STATUS, value: 0 });
    assert_eq!(ops[1], RegOp::FetchOr32 { offset: VIRTIO_REG_DEVICE_STATUS, value: 1 });
    assert_eq!(ops[2], RegOp::FetchOr32 { offset: VIRTIO_REG_DEVICE_STATUS, value: 2 });
    assert_eq!(ops[3], RegOp::FetchOr32 { offset: VIRTIO_REG_DEVICE_STATUS, value: 8 });
    // driver OK is or-ed in, keeping the bits set before
    assert_eq!(ops[8], RegOp::FetchOr32 { offset: VIRTIO_REG_DEVICE_STATUS, value: 4 });
    assert_eq!(dev.vq.paddr, 0x8010_0000);
    assert_eq!(dev.capacity, 0);
    dev.finish_init(&mut mm, &mut mem, &layout(), 4);
    assert_eq!(dev.capacity, 2048);
    assert_eq!(dev.req_paddr, 0x8011_3000);
    // the request area takes as many pages as the rounded size has bytes
    assert_eq!(mm.next_addr, 0x8011_3000 + 0x1000 * 0x1000);
}

fn ready_device(mem: &mut PhysMem) -> VirtioBlk {
    let mut mm = manager(0x8010_0000);
    let (mut dev, _) = virtio_blk_init(&mut mm, mem, &layout(), VIRTIO_MAGIC, 1, 2);
    dev.finish_init(&mut mm, mem, &layout(), 8);
    dev
}

fn read_u64(mem: &PhysMem, a: usize) -> u64 {
    (mem.read_word(a) as u64) | ((mem.read_word(a + 4) as u64) << 32)
}

/// Address, length, flags and next of descriptor `i`.
fn desc(mem: &PhysMem, dev: &VirtioBlk, i: usize) -> (u64, usize, u16, u16) {
    let a = dev.vq.paddr + i * dev.vq.desc_size;
    (read_u64(mem, a), mem.read_word(a + 8), mem.read_u16(a + 12), mem.read_u16(a + 14))
}

#[test]
fn read_write_disk_refuses_sector_past_end() {
    let mut mem = PhysMem::new();
    let mut dev = ready_device(&mut mem);
    let before = dev;
    let buf = [0u8; 512];
    assert_eq!(
        dev.read_write_disk(&mut mem, &buf, 8, false),
        DiskRequest::OutOfRange { sector: 8, capacity_sectors: 8 }
    );
    assert_eq!(mem.read_u16(dev.vq.avail + 2), 0);
    assert_eq!(desc(&mem, &dev, 0), (0, 0, 0, 0));
    assert_eq!(dev, before);
}

#[test]
fn read_write_disk_builds_write_chain() {
    let mut mem = PhysMem::new();
    let mut dev = ready_device(&mut mem);
    let mut buf = [0u8; 512];
    buf[0] = 0xab;
    buf[511] = 0xcd;
    let r = dev.read_write_disk(&mut mem, &buf, 3, true);
    assert_eq!(r, DiskRequest::Notify(RegOp::Write32 { offset: VIRTIO_REG_QUEUE_NOTIFY, value: 0 }));
    let p = dev.req_paddr as u64;
    // the request: type, sector, and the data copied from the buffer
    assert_eq!(mem.read_word(dev.req_paddr), 1);
    assert_eq!(read_u64(&mem, dev.req_paddr + 8), 3);
    assert_eq!(mem.read_byte(dev.req_paddr + 16), 0xab);
    assert_eq!(mem.read_byte(dev.req_paddr + 16 + 511), 0xcd);
    // header, then data, then status; the chain goes on from 0 to 1 to 2, and
    // the device may write only the status byte
    assert_eq!(desc(&mem, &dev, 0), (p, 16, VIRTQ_DESC_F_NEXT, 1));
    assert_eq!(desc(&mem, &dev, 1), (p + 16, 512, VIRTQ_DESC_F_NEXT, 2));
    assert_eq!(desc(&mem, &dev, 2), (p + 528, 1, VIRTQ_DESC_F_WRITE, 0));
    // descriptor 0 sits in slot 0 of the available ring, whose index moved on once
    assert_eq!(mem.read_u16(dev.vq.avail + 4), 0);
    assert_eq!(mem.read_u16(dev.vq.avail + 2), 1);
    assert_eq!(dev.vq.last_used_index, 1);
}

#[test]
fn read_request_marks_data_descriptor_device_writable() {
    let mut mem = PhysMem::new();
    let mut dev = ready_device(&mut mem);
    let buf = [7u8; 512];
    dev.read_write_disk(&mut mem, &buf, 0, false);
    assert_eq!(mem.read_word(dev.req_paddr), 0);
    assert_eq!(desc(&mem, &dev, 1).2, VIRTQ_DESC_F_NEXT | VIRTQ_DESC_F_WRITE);
    // a read leaves the data area alone
    assert_eq!(mem.read_byte(dev.req_paddr + 16), 0);
}

#[test]
fn finish_disk_io_reports_status_or_copies_data() {
    let mut mem = PhysMem::new();
    let dev = ready_device(&mut mem);
    let mut buf = [9u8; 512];
    mem.write_byte(dev.req_paddr + 528, 1);
    assert_eq!(dev.finish_disk_io(&mem, &mut buf, false), Err(1));
    assert_eq!(buf[0], 9);
    mem.write_byte(dev.req_paddr + 528, 0);
    mem.write_byte(dev.req_paddr + 16 + 7, 0x42);
    assert_eq!(dev.finish_disk_io(&mem, &mut buf, false), Ok(()));
    assert_eq!(buf[7], 0x42);
    assert_eq!(buf[0], 0);
    let mut wbuf = [5u8; 512];
    assert_eq!(dev.finish_disk_io(&mem, &mut wbuf, true), Ok(()));
    assert_eq!(wbuf[0], 5);
}

#[test]
fn kick_wraps_ring_slot_and_index() {
    let mut mem = PhysMem::new();
    let mut dev = ready_device(&mut mem);
    mem.write_u16(dev.vq.avail + 2, 0xffff);
    dev.vq.queue_index = 4;
    dev.vq.last_used_index = 0xffff;
    let op = virtq_kick(&mut mem, &mut dev.vq, 7);
    assert_eq!(op, RegOp::Write32 { offset: VIRTIO_REG_QUEUE_NOTIFY, value: 4 });
    assert_eq!(mem.read_u16(dev.vq.avail + 4 + 2 * 15), 7);
    assert_eq!(mem.read_u16(dev.vq.avail + 2), 0);
    assert_eq!(dev.vq.last_used_index, 0);
}

#[test]
fn busy_until_used_index_catches_up() {
    let mut mem = PhysMem::new();
    let mut dev = ready_device(&mut mem);
    assert!(!virtq_is_busy(&mem, &dev.vq));
    let buf = [0u8; 512];
    dev.read_write_disk(&mut mem, &buf, 1, false);
    // the request is outstanding until the device moves the used index on
    assert!(virtq_is_busy(&mem, &dev.vq));
    mem.write_u16(dev.vq.used + 2, 1);
    assert!(!virtq_is_busy(&mem, &dev.vq));
}

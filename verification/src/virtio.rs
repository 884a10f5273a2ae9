use vstd::prelude::*;
use crate::mem::{
    PhysMem, PageManager, PAGE_SIZE, zero_range, alloc_spec, oom_bump, write_bytes, bytes_at, u16_at, put_u16,
    put_u32, put_u64, lemma_u16_write_read, u16_bytes, u32_bytes, u64_bytes,
};
use crate::utils::align_up;

verus! {

/// Size of a disk sector, in bytes.
pub const SECTOR_SIZE: usize = 512;
/// Number of descriptors in the virtqueue.
pub const VIRTQ_ENTRY_NUM: usize = 16;
/// Device id of a virtio block device.
pub const VIRTIO_DEVICE_BLK: usize = 2;
/// Physical address of the virtio block device's registers.
pub const VIRTIO_BLK_PADDR: usize = 0x1000_1000;

/// Register offsets of a legacy virtio-mmio device.
pub const VIRTIO_REG_MAGIC: usize = 0x00;
pub const VIRTIO_REG_VERSION: usize = 0x04;
pub const VIRTIO_REG_DEVICE_ID: usize = 0x08;
pub const VIRTIO_REG_QUEUE_SEL: usize = 0x30;
pub const VIRTIO_REG_QUEUE_NUM_MAX: usize = 0x34;
pub const VIRTIO_REG_QUEUE_NUM: usize = 0x38;
pub const VIRTIO_REG_QUEUE_ALIGN: usize = 0x3c;
pub const VIRTIO_REG_QUEUE_PFN: usize = 0x40;
pub const VIRTIO_REG_QUEUE_READY: usize = 0x44;
pub const VIRTIO_REG_QUEUE_NOTIFY: usize = 0x50;
pub const VIRTIO_REG_DEVICE_STATUS: usize = 0x70;
pub const VIRTIO_REG_DEVICE_CONFIG: usize = 0x100;

/// Device status bits.
pub const VIRTIO_STATUS_ACK: u32 = 1;
pub const VIRTIO_STATUS_DRIVER: u32 = 2;
pub const VIRTIO_STATUS_DRIVER_OK: u32 = 4;
pub const VIRTIO_STATUS_FEAT_OK: u32 = 8;

/// The value that the magic register holds: "virt" in little-endian ASCII.
pub const VIRTIO_MAGIC: u32 = 0x7472_6976;

/// Bytes of a request header: its type, a reserved word and the sector number.
pub const BLK_REQ_HEADER_SIZE: usize = 16;

/// Offsets of a descriptor's fields: the buffer's address, its length, the
/// flags, and the next descriptor of the chain.
pub const DESC_ADDR: usize = 0;
pub const DESC_LEN: usize = 8;
pub const DESC_FLAGS: usize = 12;
pub const DESC_NEXT: usize = 14;

/// Offsets in the available and used rings: the flags, the index, and the
/// first entry.
pub const RING_FLAGS: usize = 0;
pub const RING_IDX: usize = 2;
pub const RING_ENTRIES: usize = 4;

/// Offsets of a block request's fields: its type, a reserved word, the sector,
/// one sector of data, and the status that the device writes.
pub const REQ_TYPE: usize = 0;
pub const REQ_RESERVED: usize = 4;
pub const REQ_SECTOR: usize = 8;
pub const REQ_DATA: usize = 16;
pub const REQ_STATUS: usize = 528;

/// Descriptor flags: the chain goes on; the device writes the buffer.
pub const VIRTQ_DESC_F_NEXT: u16 = 1;
pub const VIRTQ_DESC_F_WRITE: u16 = 2;

/// Block request types: read from the disk; write to it.
pub const VIRTIO_BLK_T_IN: u32 = 0;
pub const VIRTIO_BLK_T_OUT: u32 = 1;

/// A virtqueue as the driver keeps it: the queue itself (descriptors, then the
/// available ring, then the used ring) lies in memory from `paddr` on, with
/// descriptors `desc_size` bytes apart and the rings at `avail` and `used`; the
/// driver also records the queue's index, the address it computed for the used
/// index, and how far it has read the used ring.
#[derive(Clone, Copy, PartialEq, Eq, Debug, Structural)]
pub struct VirtioVirtq {
    pub paddr: usize,
    pub desc_size: usize,
    pub avail: usize,
    pub used: usize,
    pub queue_index: i32,
    pub used_index: usize,
    pub last_used_index: u16,
}

/// A write to a device register: either of a value, or of the register's
/// current value or-ed with a value.
#[derive(Clone, Copy, PartialEq, Eq, Debug, Structural)]
pub enum RegOp {
    Write32 { offset: usize, value: u32 },
    FetchOr32 { offset: usize, value: u32 },
}

/// Why the device at the virtio address is refused.
#[derive(Clone, Copy, PartialEq, Eq, Debug, Structural)]
pub enum VirtioError {
    InvalidMagic,
    InvalidVersion,
    InvalidDeviceId,
}

/// The sizes, in bytes, of the structures that the driver lays out in memory.
#[derive(Clone, Copy, PartialEq, Eq, Debug, Structural)]
pub struct VirtioLayout {
    pub virtq: usize,
    pub desc: usize,
    pub avail: usize,
    pub used: usize,
    pub blk_req: usize,
}

/// What `read_write_disk` asks of the machine.
#[derive(Clone, Copy, PartialEq, Eq, Debug, Structural)]
pub enum DiskRequest {
    /// The sector lies past the end of the disk, which has `capacity_sectors`
    /// sectors; nothing was sent.
    OutOfRange { sector: u64, capacity_sectors: u64 },
    /// The request is in the queue: perform this register write to notify the
    /// device, then wait while `virtq_is_busy`.
    Notify(RegOp),
}

/// The block device as the driver keeps it: its queue, the address of the
/// request area, and the disk's capacity in bytes.
#[derive(Clone, Copy, PartialEq, Eq, Debug, Structural)]
pub struct VirtioBlk {
    pub vq: VirtioVirtq,
    pub req_paddr: usize,
    pub capacity: u64,
}

/// Checks the three identification registers, in order: the magic value, version
/// 1, and the block device id.
pub fn check_device(magic: u32, version: u32, device_id: u32) -> (r: Result<(), VirtioError>)
    ensures
        magic != VIRTIO_MAGIC ==> r == Err::<(), VirtioError>(VirtioError::InvalidMagic),
        magic == VIRTIO_MAGIC && version != 1 ==> r == Err::<(), VirtioError>(VirtioError::InvalidVersion),
        magic == VIRTIO_MAGIC && version == 1 && device_id != VIRTIO_DEVICE_BLK ==> r == Err::<(), VirtioError>(
            VirtioError::InvalidDeviceId,
        ),
        magic == VIRTIO_MAGIC && version == 1 && device_id == VIRTIO_DEVICE_BLK ==> r is Ok,
{
    if magic != VIRTIO_MAGIC {
        return Err(VirtioError::InvalidMagic);
    }
    if version != 1 {
        return Err(VirtioError::InvalidVersion);
    }
    if device_id != VIRTIO_DEVICE_BLK as u32 {
        return Err(VirtioError::InvalidDeviceId);
    }
    Ok(())
}

/// The number of pages that a queue of `virtq_size` bytes takes.
pub open spec fn virtq_pages(virtq_size: usize) -> usize {
    (((virtq_size + PAGE_SIZE - 1) as usize) & !((PAGE_SIZE - 1) as usize)) / PAGE_SIZE
}

/// How many whole queues the used index lies past the queue's start:
/// `desc * 16 + avail + used + 8`.
pub open spec fn used_index_steps(layout: VirtioLayout) -> int {
    layout.desc * VIRTQ_ENTRY_NUM + layout.avail + layout.used + 8
}

/// The address that the queue records as that of its used index: the queue's
/// address, stepped by `used_index_steps` whole queues, wrapping round the
/// address space.
pub open spec fn used_index_addr(vq_paddr: usize, layout: VirtioLayout) -> usize {
    vstd::wrapping::usize_specs::wrapping_add(
        vq_paddr,
        vstd::wrapping::usize_specs::wrapping_mul(layout.virtq, used_index_steps(layout) as usize),
    )
}

/// Rounding `v` up to a whole page, as `virtq_pages` and `request_pages` do,
/// gives a multiple of the page size that is at least `v`.
proof fn lemma_round_up_page(v: usize)
    requires
        v + PAGE_SIZE - 1 <= usize::MAX,
    ensures
        ({
            let r = ((v + PAGE_SIZE - 1) as usize) & !((PAGE_SIZE - 1) as usize);
            &&& v <= r
            &&& r % PAGE_SIZE == 0
            &&& (r / PAGE_SIZE) * PAGE_SIZE == r
        }),
{
    let x = (v + 4095) as usize;
    assert(x & !4095usize <= x && x - (x & !4095usize) < 4096 && (x & !4095usize) % 4096 == 0) by (bit_vector);
    assert(((v + PAGE_SIZE - 1) as usize) & !((PAGE_SIZE - 1) as usize) == x & !4095usize);
}

/// The inputs on which `virtq_init` runs to its end: rounding up the queue size,
/// taking its pages, and counting the steps to the used index stay in range.
pub open spec fn virtq_init_ok(next: usize, layout: VirtioLayout) -> bool {
    &&& layout.virtq + PAGE_SIZE - 1 <= usize::MAX
    &&& next + virtq_pages(layout.virtq) * PAGE_SIZE <= usize::MAX
    &&& used_index_steps(layout) <= isize::MAX
    &&& next + layout.desc * VIRTQ_ENTRY_NUM + layout.avail <= usize::MAX
}

/// The queue that `virtq_init` lays out at `paddr` for queue `index`.
pub open spec fn queue_at(paddr: usize, index: u32, layout: VirtioLayout) -> VirtioVirtq {
    VirtioVirtq {
        paddr,
        desc_size: layout.desc,
        avail: (paddr + layout.desc * VIRTQ_ENTRY_NUM) as usize,
        used: (paddr + layout.desc * VIRTQ_ENTRY_NUM + layout.avail) as usize,
        queue_index: index as i32,
        used_index: used_index_addr(paddr, layout),
        last_used_index: 0,
    }
}

/// The register writes that set up queue `index` at `vq_paddr`: select it, give
/// its size, an alignment of zero, and its page frame number.
pub open spec fn queue_setup_ops(index: u32, vq_paddr: usize) -> Seq<RegOp> {
    seq![
        RegOp::Write32 { offset: VIRTIO_REG_QUEUE_SEL, value: index },
        RegOp::Write32 { offset: VIRTIO_REG_QUEUE_NUM, value: VIRTQ_ENTRY_NUM as u32 },
        RegOp::Write32 { offset: VIRTIO_REG_QUEUE_ALIGN, value: 0 },
        RegOp::Write32 { offset: VIRTIO_REG_QUEUE_PFN, value: vq_paddr as u32 },
    ]
}

/// Lays out virtqueue `index` in fresh zeroed pages and gives back their address,
/// the queue, and the register writes that hand it to the device.
pub fn virtq_init(mm: &mut PageManager, mem: &mut PhysMem, index: u32, layout: &VirtioLayout) -> (r: (
    usize,
    VirtioVirtq,
    Vec<RegOp>,
))
    requires
        virtq_init_ok(old(mm).next_addr, *layout),
    ensures
        ({
            let pages = virtq_pages(layout.virtq);
            let (paddr, next1) = alloc_spec(old(mm).next_addr, pages);
            &&& r.0 == paddr
            &&& final(mm).next_addr == next1
            &&& final(mm).ram == old(mm).ram
            &&& final(mm).oom_reports == oom_bump(old(mm).oom_reports, old(mm).ram, paddr as int)
            &&& final(mem).contents() == zero_range(old(mem).contents(), paddr, (pages * PAGE_SIZE) as usize)
            &&& r.1 == queue_at(paddr, index, *layout)
            &&& r.2@ == queue_setup_ops(index, paddr)
        }),
{
    let rounded = align_up(layout.virtq, PAGE_SIZE);
    let pages = rounded / PAGE_SIZE;
    let paddr = mm.alloc_pages(mem, pages);
    let count = layout.desc * VIRTQ_ENTRY_NUM + layout.avail + layout.used + 4 + 4;
    let used_index = paddr.wrapping_add(layout.virtq.wrapping_mul(count));
    let avail = paddr + layout.desc * VIRTQ_ENTRY_NUM;
    let vq = VirtioVirtq {
        paddr,
        desc_size: layout.desc,
        avail,
        used: avail + layout.avail,
        queue_index: index as i32,
        used_index,
        last_used_index: 0,
    };
    let mut ops: Vec<RegOp> = Vec::new();
    ops.push(RegOp::Write32 { offset: VIRTIO_REG_QUEUE_SEL, value: index });
    ops.push(RegOp::Write32 { offset: VIRTIO_REG_QUEUE_NUM, value: VIRTQ_ENTRY_NUM as u32 });
    ops.push(RegOp::Write32 { offset: VIRTIO_REG_QUEUE_ALIGN, value: 0 });
    ops.push(RegOp::Write32 { offset: VIRTIO_REG_QUEUE_PFN, value: paddr as u32 });
    assert(ops@ == queue_setup_ops(index, paddr));
    (paddr, vq, ops)
}

/// The register writes of the device bring-up, in order: reset, then setting
/// (or-ing in) the acknowledge, driver and features-OK bits, the queue set-up,
/// then setting the driver-OK bit.
pub open spec fn blk_init_ops(vq_paddr: usize) -> Seq<RegOp> {
    seq![
        RegOp::Write32 { offset: VIRTIO_REG_DEVICE_STATUS, value: 0 },
        RegOp::FetchOr32 { offset: VIRTIO_REG_DEVICE_STATUS, value: VIRTIO_STATUS_ACK },
        RegOp::FetchOr32 { offset: VIRTIO_REG_DEVICE_STATUS, value: VIRTIO_STATUS_DRIVER },
        RegOp::FetchOr32 { offset: VIRTIO_REG_DEVICE_STATUS, value: VIRTIO_STATUS_FEAT_OK },
    ] + queue_setup_ops(0, vq_paddr) + seq![
        RegOp::FetchOr32 { offset: VIRTIO_REG_DEVICE_STATUS, value: VIRTIO_STATUS_DRIVER_OK },
    ]
}

/// The queue set-up, with the register offsets and values written out: select
/// queue `index` (0x30), give the queue size 16 (0x38), an alignment of zero
/// (0x3c), and the page frame of `vq_paddr` (0x40), in that order.
pub proof fn lemma_queue_setup_writes(index: u32, vq_paddr: usize)
    ensures
        queue_setup_ops(index, vq_paddr) == seq![
            RegOp::Write32 { offset: 0x30, value: index },
            RegOp::Write32 { offset: 0x38, value: 16 },
            RegOp::Write32 { offset: 0x3c, value: 0 },
            RegOp::Write32 { offset: 0x40, value: vq_paddr as u32 },
        ],
{
}

/// The value of the device status register (offset 0x70) after `ops`, starting
/// from `status`: a write sets it, an or-write sets bits in it, and writes to
/// other registers leave it.
pub open spec fn status_after(ops: Seq<RegOp>, status: u32) -> u32
    decreases ops.len(),
{
    if ops.len() == 0 {
        status
    } else {
        let s1 = match ops[0] {
            RegOp::Write32 { offset, value } => if offset == 0x70 { value } else { status },
            RegOp::FetchOr32 { offset, value } => if offset == 0x70 { status | value } else { status },
        };
        status_after(ops.subrange(1, ops.len() as int), s1)
    }
}

/// The bring-up resets the device and then sets each status bit while keeping
/// those set before: whatever the register held, it ends holding acknowledge,
/// driver, features OK and driver OK (15); queue 0 is told its size, 16, as the
/// sixth write.
pub proof fn lemma_blk_init_status(vq_paddr: usize, status: u32)
    ensures
        status_after(blk_init_ops(vq_paddr), status) == 15,
        blk_init_ops(vq_paddr).len() == 9,
        blk_init_ops(vq_paddr)[5] == (RegOp::Write32 { offset: 0x38, value: 16 }),
{
    let ops = blk_init_ops(vq_paddr);
    reveal_with_fuel(status_after, 10);
    assert(ops.subrange(1, 9) =~= ops.subrange(1, 9));
    assert(0u32 | 1u32 == 1u32) by (bit_vector);
    assert(1u32 | 2u32 == 3u32) by (bit_vector);
    assert(3u32 | 8u32 == 11u32) by (bit_vector);
    assert(11u32 | 4u32 == 15u32) by (bit_vector);
    let o1 = ops.subrange(1, 9);
    let o2 = o1.subrange(1, 8);
    let o3 = o2.subrange(1, 7);
    let o4 = o3.subrange(1, 6);
    let o5 = o4.subrange(1, 5);
    let o6 = o5.subrange(1, 4);
    let o7 = o6.subrange(1, 3);
    let o8 = o7.subrange(1, 2);
    let o9 = o8.subrange(1, 1);
    assert(o9.len() == 0);
    assert(o8[0] == ops[8]);
    assert(o7[0] == ops[7]);
    assert(o6[0] == ops[6]);
    assert(o5[0] == ops[5]);
    assert(o4[0] == ops[4]);
    assert(o3[0] == ops[3]);
    assert(o2[0] == ops[2]);
    assert(o1[0] == ops[1]);
}

/// Brings up the block device, whose identification registers (checked by
/// `check_device`) name a version 1 block device: resets it, sets the
/// acknowledge, driver and features-OK bits, lays out queue 0, and sets driver
/// OK; gives back the device with the register writes to perform, in order. The
/// capacity and the request area follow in `finish_init`, once the capacity
/// register has been read.
pub fn virtio_blk_init(
    mm: &mut PageManager,
    mem: &mut PhysMem,
    layout: &VirtioLayout,
    magic: u32,
    version: u32,
    device_id: u32,
) -> (r: (VirtioBlk, Vec<RegOp>))
    requires
        magic == VIRTIO_MAGIC,
        version == 1,
        device_id == VIRTIO_DEVICE_BLK,
        virtq_init_ok(old(mm).next_addr, *layout),
    ensures
        ({
            let pages = virtq_pages(layout.virtq);
            let (paddr, next1) = alloc_spec(old(mm).next_addr, pages);
            &&& r.0 == (VirtioBlk { vq: queue_at(paddr, 0, *layout), req_paddr: 0, capacity: 0 })
            &&& layout_ok(*layout) ==> queue_ok(r.0.vq) && queue_end(r.0.vq) <= final(mm).next_addr
            &&& r.1@ == blk_init_ops(paddr)
            &&& final(mm).next_addr == next1
            &&& final(mm).ram == old(mm).ram
            &&& final(mm).oom_reports == oom_bump(old(mm).oom_reports, old(mm).ram, paddr as int)
            &&& final(mem).contents() == zero_range(old(mem).contents(), paddr, (pages * PAGE_SIZE) as usize)
        }),
{
    let mut ops: Vec<RegOp> = Vec::new();
    ops.push(RegOp::Write32 { offset: VIRTIO_REG_DEVICE_STATUS, value: 0 });
    ops.push(RegOp::FetchOr32 { offset: VIRTIO_REG_DEVICE_STATUS, value: VIRTIO_STATUS_ACK });
    ops.push(RegOp::FetchOr32 { offset: VIRTIO_REG_DEVICE_STATUS, value: VIRTIO_STATUS_DRIVER });
    ops.push(RegOp::FetchOr32 { offset: VIRTIO_REG_DEVICE_STATUS, value: VIRTIO_STATUS_FEAT_OK });
    let (vq_paddr, vq, mut queue_ops) = virtq_init(mm, mem, 0, layout);
    ops.append(&mut queue_ops);
    ops.push(RegOp::FetchOr32 { offset: VIRTIO_REG_DEVICE_STATUS, value: VIRTIO_STATUS_DRIVER_OK });
    assert(ops@ == blk_init_ops(vq_paddr));
    proof {
        if layout_ok(*layout) {
            lemma_round_up_page(layout.virtq);
        }
    }
    (VirtioBlk { vq, req_paddr: 0, capacity: 0 }, ops)
}

/// The number of pages that `finish_init` takes for a request structure of
/// `blk_req` bytes: the size rounded up to a whole page, taken as a count of pages.
pub open spec fn request_pages(blk_req: usize) -> usize {
    (((blk_req + PAGE_SIZE - 1) as usize) & !((PAGE_SIZE - 1) as usize)) as usize
}

impl VirtioBlk {
    /// Records the capacity, in bytes, of a disk of `config` sectors, and takes
    /// fresh zeroed pages for the request area: as many pages as the request
    /// structure, rounded up to a page, has bytes.
    pub fn finish_init(&mut self, mm: &mut PageManager, mem: &mut PhysMem, layout: &VirtioLayout, config: u64)
        requires
            config * (SECTOR_SIZE as u64) <= u64::MAX,
            layout.blk_req + PAGE_SIZE - 1 <= usize::MAX,
            old(mm).next_addr + request_pages(layout.blk_req) * PAGE_SIZE <= usize::MAX,
        ensures
            ({
                let pages = request_pages(layout.blk_req);
                let (paddr, next1) = alloc_spec(old(mm).next_addr, pages);
                &&& final(self).capacity == config * (SECTOR_SIZE as u64)
                &&& final(self).req_paddr == paddr
                &&& final(self).vq == old(self).vq
                &&& (queue_ok(old(self).vq) && queue_end(old(self).vq) <= old(mm).next_addr && layout_ok(*layout))
                    ==> blk_ok(*final(self))
                &&& final(mm).next_addr == next1
                &&& final(mm).ram == old(mm).ram
                &&& final(mm).oom_reports == oom_bump(old(mm).oom_reports, old(mm).ram, paddr as int)
                &&& final(mem).contents() == zero_range(old(mem).contents(), paddr, (pages * PAGE_SIZE) as usize)
            }),
    {
        self.capacity = config * (SECTOR_SIZE as u64);
        let pages = align_up(layout.blk_req, PAGE_SIZE);
        self.req_paddr = mm.alloc_pages(mem, pages);
        proof {
            if layout_ok(*layout) {
                lemma_round_up_page(layout.blk_req);
            }
        }
    }
}

/// The addresses that a request touches stay in the address space: the
/// request's fields, the first three descriptors, and the available ring.
pub open spec fn request_addrs_ok(dev: VirtioBlk) -> bool {
    &&& dev.req_paddr + REQ_STATUS + 1 <= usize::MAX
    &&& dev.req_paddr + REQ_STATUS + 1 <= u64::MAX
    &&& dev.vq.paddr + 2 * dev.vq.desc_size + DESC_NEXT + 2 <= usize::MAX
    &&& dev.vq.avail + RING_ENTRIES + 2 * VIRTQ_ENTRY_NUM <= usize::MAX
}

/// The sizes are those of structures that hold their fields: a descriptor of
/// at least 16 bytes, rings with room for their index and sixteen entries, the
/// sixteen descriptors and both rings inside the queue, and a request with room
/// for its status byte.
pub open spec fn layout_ok(layout: VirtioLayout) -> bool {
    &&& layout.desc >= DESC_NEXT + 2
    &&& layout.avail >= RING_ENTRIES + 2 * VIRTQ_ENTRY_NUM
    &&& layout.used >= RING_ENTRIES + 8 * VIRTQ_ENTRY_NUM
    &&& layout.desc * VIRTQ_ENTRY_NUM + layout.avail + layout.used <= layout.virtq
    &&& layout.blk_req >= REQ_STATUS + 1
}

/// The first address past the queue's used ring.
pub open spec fn queue_end(vq: VirtioVirtq) -> int {
    vq.used + RING_ENTRIES + 8 * VIRTQ_ENTRY_NUM
}

/// The queue's parts lie where the driver expects them: descriptors of at least
/// 16 bytes from `paddr` on, the available ring right after the sixteen of them,
/// and the used ring past the available ring's entries, all in the address space.
pub open spec fn queue_ok(vq: VirtioVirtq) -> bool {
    &&& vq.desc_size >= DESC_NEXT + 2
    &&& vq.avail == vq.paddr + VIRTQ_ENTRY_NUM * vq.desc_size
    &&& vq.avail + RING_ENTRIES + 2 * VIRTQ_ENTRY_NUM <= vq.used
    &&& queue_end(vq) <= usize::MAX
}

/// A well-formed device: its queue is well formed, and its request area lies in
/// the address space, apart from the queue.
pub open spec fn blk_ok(dev: VirtioBlk) -> bool {
    &&& queue_ok(dev.vq)
    &&& dev.req_paddr + REQ_STATUS + 1 <= usize::MAX
    &&& dev.req_paddr + REQ_STATUS + 1 <= u64::MAX
    &&& (dev.req_paddr + REQ_STATUS + 1 <= dev.vq.paddr || queue_end(dev.vq) <= dev.req_paddr)
}

/// Descriptor `a` holds the address, length and flags given.
pub open spec fn desc_head_holds(m: spec_fn(usize) -> u8, a: usize, addr: u64, len: u32, flags: u16) -> bool {
    &&& bytes_at(m, (a + DESC_ADDR) as usize, 8) == u64_bytes(addr)
    &&& bytes_at(m, (a + DESC_LEN) as usize, 4) == u32_bytes(len)
    &&& bytes_at(m, (a + DESC_FLAGS) as usize, 2) == u16_bytes(flags)
}

/// What the device finds of a request for `sector`: the request carries the
/// type and the sector (and, for a write, `buf` as its data); descriptor 0
/// covers the header and goes on to 1, which covers the data (writable by the
/// device on a read) and goes on to 2, which covers the status byte, writable by
/// the device.
pub open spec fn request_in_memory(m: spec_fn(usize) -> u8, dev: VirtioBlk, buf: Seq<u8>, sector: u64, is_write: bool) -> bool {
    let req = dev.req_paddr;
    let p = req as u64;
    let d0 = dev.vq.paddr;
    let d1 = (dev.vq.paddr + dev.vq.desc_size) as usize;
    let d2 = (dev.vq.paddr + 2 * dev.vq.desc_size) as usize;
    &&& bytes_at(m, (req + REQ_TYPE) as usize, 4) == u32_bytes(if is_write { VIRTIO_BLK_T_OUT } else { VIRTIO_BLK_T_IN })
    &&& bytes_at(m, (req + REQ_SECTOR) as usize, 8) == u64_bytes(sector)
    &&& is_write ==> bytes_at(m, (req + REQ_DATA) as usize, SECTOR_SIZE as nat) == buf
    &&& desc_head_holds(m, d0, p, BLK_REQ_HEADER_SIZE as u32, VIRTQ_DESC_F_NEXT)
    &&& bytes_at(m, (d0 + DESC_NEXT) as usize, 2) == u16_bytes(1)
    &&& desc_head_holds(m, d1, (p + REQ_DATA) as u64, SECTOR_SIZE as u32, data_desc_flags(is_write))
    &&& bytes_at(m, (d1 + DESC_NEXT) as usize, 2) == u16_bytes(2)
    &&& desc_head_holds(m, d2, (p + REQ_STATUS) as u64, 1, VIRTQ_DESC_F_WRITE)
}

/// `m` with a descriptor's address, length and flags stored at `a`.
pub open spec fn put_desc_head(m: spec_fn(usize) -> u8, a: usize, addr: u64, len: u32, flags: u16) -> spec_fn(
    usize,
) -> u8 {
    put_u16(put_u32(put_u64(m, (a + DESC_ADDR) as usize, addr), (a + DESC_LEN) as usize, len), (a + DESC_FLAGS) as usize, flags)
}

/// The flags of the data descriptor: the chain goes on, and on a read the device
/// writes the data.
pub open spec fn data_desc_flags(is_write: bool) -> u16 {
    if is_write {
        VIRTQ_DESC_F_NEXT
    } else {
        VIRTQ_DESC_F_NEXT | VIRTQ_DESC_F_WRITE
    }
}

/// Memory once a request for `sector` is filled in: the sector, the type
/// (`VIRTIO_BLK_T_OUT` for a write, which also copies `buf` into the data, and
/// `VIRTIO_BLK_T_IN` for a read), then descriptors 0, 1 and 2 chained over the
/// header, the data (which the device writes on a read) and the status byte
/// (which the device writes); descriptor 2 keeps its `next`.
pub open spec fn request_written(
    m: spec_fn(usize) -> u8,
    dev: VirtioBlk,
    buf: Seq<u8>,
    sector: u64,
    is_write: bool,
) -> spec_fn(usize) -> u8 {
    let req = dev.req_paddr;
    let p = req as u64;
    let d0 = dev.vq.paddr;
    let d1 = (dev.vq.paddr + dev.vq.desc_size) as usize;
    let d2 = (dev.vq.paddr + 2 * dev.vq.desc_size) as usize;
    let m1 = put_u64(m, (req + REQ_SECTOR) as usize, sector);
    let m2 = put_u32(m1, (req + REQ_TYPE) as usize, if is_write { VIRTIO_BLK_T_OUT } else { VIRTIO_BLK_T_IN });
    let m3 = if is_write { write_bytes(m2, (req + REQ_DATA) as usize, buf) } else { m2 };
    let m4 = put_u16(
        put_desc_head(m3, d0, p, BLK_REQ_HEADER_SIZE as u32, VIRTQ_DESC_F_NEXT),
        (d0 + DESC_NEXT) as usize,
        1,
    );
    let m5 = put_u16(
        put_desc_head(m4, d1, (p + REQ_DATA) as u64, SECTOR_SIZE as u32, data_desc_flags(is_write)),
        (d1 + DESC_NEXT) as usize,
        2,
    );
    put_desc_head(m5, d2, (p + REQ_STATUS) as u64, 1, VIRTQ_DESC_F_WRITE)
}

/// Storing a descriptor's head (and then its `next`) at `a` leaves those values
/// there and touches nothing outside the descriptor's 16 bytes.
proof fn lemma_desc_written(m: spec_fn(usize) -> u8, a: usize, addr: u64, len: u32, flags: u16, next: u16)
    requires
        a + DESC_NEXT + 2 <= usize::MAX,
    ensures
        desc_head_holds(put_desc_head(m, a, addr, len, flags), a, addr, len, flags),
        desc_head_holds(put_u16(put_desc_head(m, a, addr, len, flags), (a + DESC_NEXT) as usize, next), a, addr, len, flags),
        bytes_at(put_u16(put_desc_head(m, a, addr, len, flags), (a + DESC_NEXT) as usize, next), (a + DESC_NEXT) as usize, 2)
            == u16_bytes(next),
        forall|x: usize| !(a <= x < a + DESC_NEXT + 2) ==> #[trigger] put_desc_head(m, a, addr, len, flags)(x) == m(x),
        forall|x: usize|
            !(a <= x < a + DESC_NEXT + 2) ==> #[trigger] put_u16(put_desc_head(m, a, addr, len, flags), (a + DESC_NEXT) as usize, next)(x)
                == m(x),
{
    let h = put_desc_head(m, a, addr, len, flags);
    let n = put_u16(h, (a + DESC_NEXT) as usize, next);
    assert(bytes_at(h, (a + DESC_ADDR) as usize, 8) =~= u64_bytes(addr));
    assert(bytes_at(h, (a + DESC_LEN) as usize, 4) =~= u32_bytes(len));
    assert(bytes_at(h, (a + DESC_FLAGS) as usize, 2) =~= u16_bytes(flags));
    assert(bytes_at(n, (a + DESC_ADDR) as usize, 8) =~= u64_bytes(addr));
    assert(bytes_at(n, (a + DESC_LEN) as usize, 4) =~= u32_bytes(len));
    assert(bytes_at(n, (a + DESC_FLAGS) as usize, 2) =~= u16_bytes(flags));
    assert(bytes_at(n, (a + DESC_NEXT) as usize, 2) =~= u16_bytes(next));
}

/// Memory that agrees with `m` on a descriptor's bytes holds the same descriptor.
proof fn lemma_desc_kept(m: spec_fn(usize) -> u8, k: spec_fn(usize) -> u8, a: usize, addr: u64, len: u32, flags: u16)
    requires
        a + DESC_NEXT + 2 <= usize::MAX,
        desc_head_holds(m, a, addr, len, flags),
        forall|x: usize| a <= x < a + DESC_NEXT + 2 ==> #[trigger] k(x) == m(x),
    ensures
        desc_head_holds(k, a, addr, len, flags),
        bytes_at(k, (a + DESC_NEXT) as usize, 2) == bytes_at(m, (a + DESC_NEXT) as usize, 2),
{
    assert(bytes_at(k, (a + DESC_ADDR) as usize, 8) =~= bytes_at(m, (a + DESC_ADDR) as usize, 8));
    assert(bytes_at(k, (a + DESC_LEN) as usize, 4) =~= bytes_at(m, (a + DESC_LEN) as usize, 4));
    assert(bytes_at(k, (a + DESC_FLAGS) as usize, 2) =~= bytes_at(m, (a + DESC_FLAGS) as usize, 2));
    assert(bytes_at(k, (a + DESC_NEXT) as usize, 2) =~= bytes_at(m, (a + DESC_NEXT) as usize, 2));
}

/// The request's own fields, once stored, hold the type, the sector and (for a
/// write) the data; nothing outside the request's first 528 bytes changes.
proof fn lemma_request_fields_written(m: spec_fn(usize) -> u8, req: usize, buf: Seq<u8>, sector: u64, is_write: bool)
    requires
        req + REQ_STATUS + 1 <= usize::MAX,
        is_write ==> buf.len() == SECTOR_SIZE,
    ensures
        ({
            let m1 = put_u64(m, (req + REQ_SECTOR) as usize, sector);
            let m2 = put_u32(m1, (req + REQ_TYPE) as usize, if is_write { VIRTIO_BLK_T_OUT } else { VIRTIO_BLK_T_IN });
            let m3 = if is_write { write_bytes(m2, (req + REQ_DATA) as usize, buf) } else { m2 };
            &&& bytes_at(m3, (req + REQ_TYPE) as usize, 4) == u32_bytes(
                if is_write { VIRTIO_BLK_T_OUT } else { VIRTIO_BLK_T_IN },
            )
            &&& bytes_at(m3, (req + REQ_SECTOR) as usize, 8) == u64_bytes(sector)
            &&& is_write ==> bytes_at(m3, (req + REQ_DATA) as usize, SECTOR_SIZE as nat) == buf
            &&& forall|x: usize| !(req <= x < req + REQ_STATUS) ==> #[trigger] m3(x) == m(x)
        }),
{
    let m1 = put_u64(m, (req + REQ_SECTOR) as usize, sector);
    let m2 = put_u32(m1, (req + REQ_TYPE) as usize, if is_write { VIRTIO_BLK_T_OUT } else { VIRTIO_BLK_T_IN });
    let m3 = if is_write { write_bytes(m2, (req + REQ_DATA) as usize, buf) } else { m2 };
    assert(bytes_at(m3, (req + REQ_TYPE) as usize, 4) =~= u32_bytes(
        if is_write { VIRTIO_BLK_T_OUT } else { VIRTIO_BLK_T_IN },
    ));
    assert(bytes_at(m3, (req + REQ_SECTOR) as usize, 8) =~= u64_bytes(sector));
    if is_write {
        assert(bytes_at(m3, (req + REQ_DATA) as usize, SECTOR_SIZE as nat) =~= buf);
    }
}

/// On a well-formed device, filling in a request leaves it in memory as
/// `request_in_memory` describes.
proof fn lemma_request_written_holds(m: spec_fn(usize) -> u8, dev: VirtioBlk, buf: Seq<u8>, sector: u64, is_write: bool)
    requires
        blk_ok(dev),
        is_write ==> buf.len() == SECTOR_SIZE,
    ensures
        request_in_memory(request_written(m, dev, buf, sector, is_write), dev, buf, sector, is_write),
{
    let req = dev.req_paddr;
    let p = req as u64;
    let d0 = dev.vq.paddr;
    let d1 = (dev.vq.paddr + dev.vq.desc_size) as usize;
    let d2 = (dev.vq.paddr + 2 * dev.vq.desc_size) as usize;
    let m1 = put_u64(m, (req + REQ_SECTOR) as usize, sector);
    let m2 = put_u32(m1, (req + REQ_TYPE) as usize, if is_write { VIRTIO_BLK_T_OUT } else { VIRTIO_BLK_T_IN });
    let m3 = if is_write { write_bytes(m2, (req + REQ_DATA) as usize, buf) } else { m2 };
    let m4 = put_u16(put_desc_head(m3, d0, p, BLK_REQ_HEADER_SIZE as u32, VIRTQ_DESC_F_NEXT), (d0 + DESC_NEXT) as usize, 1);
    let m5 = put_u16(
        put_desc_head(m4, d1, (p + REQ_DATA) as u64, SECTOR_SIZE as u32, data_desc_flags(is_write)),
        (d1 + DESC_NEXT) as usize,
        2,
    );
    let m6 = put_desc_head(m5, d2, (p + REQ_STATUS) as u64, 1, VIRTQ_DESC_F_WRITE);
    assert(m6 == request_written(m, dev, buf, sector, is_write));
    lemma_request_fields_written(m, req, buf, sector, is_write);
    lemma_desc_written(m3, d0, p, BLK_REQ_HEADER_SIZE as u32, VIRTQ_DESC_F_NEXT, 1);
    lemma_desc_written(m4, d1, (p + REQ_DATA) as u64, SECTOR_SIZE as u32, data_desc_flags(is_write), 2);
    lemma_desc_written(m5, d2, (p + REQ_STATUS) as u64, 1, VIRTQ_DESC_F_WRITE, 0);
    // descriptor 0 outlives the writes of descriptors 1 and 2
    lemma_desc_kept(m4, m6, d0, p, BLK_REQ_HEADER_SIZE as u32, VIRTQ_DESC_F_NEXT);
    lemma_desc_kept(m5, m6, d1, (p + REQ_DATA) as u64, SECTOR_SIZE as u32, data_desc_flags(is_write));
    // the request's fields outlive all three descriptors, which lie in the queue
    assert forall|x: usize| req <= x < req + REQ_STATUS implies #[trigger] m6(x) == m3(x) by {
        assert(m6(x) == m5(x));
        assert(m5(x) == m4(x));
    }
    assert(bytes_at(m6, (req + REQ_TYPE) as usize, 4) =~= bytes_at(m3, (req + REQ_TYPE) as usize, 4));
    assert(bytes_at(m6, (req + REQ_SECTOR) as usize, 8) =~= bytes_at(m3, (req + REQ_SECTOR) as usize, 8));
    assert(bytes_at(m6, (req + REQ_DATA) as usize, SECTOR_SIZE as nat) =~= bytes_at(
        m3,
        (req + REQ_DATA) as usize,
        SECTOR_SIZE as nat,
    ));
}

/// A kick changes only the available ring's index and entries.
proof fn lemma_kick_only_touches_avail(m: spec_fn(usize) -> u8, vq: VirtioVirtq, desc: u16, x: usize)
    requires
        x < vq.avail + RING_IDX || vq.avail + RING_ENTRIES + 2 * VIRTQ_ENTRY_NUM <= x,
        vq.avail + RING_ENTRIES + 2 * VIRTQ_ENTRY_NUM <= usize::MAX,
    ensures
        kicked(m, vq, desc)(x) == m(x),
{
}

/// Memory that agrees with `m` everywhere but on the available ring's index and
/// entries finds a request there as `m` does, on a well-formed device.
proof fn lemma_request_survives_kick(m: spec_fn(usize) -> u8, dev: VirtioBlk, buf: Seq<u8>, sector: u64, is_write: bool, desc: u16)
    requires
        blk_ok(dev),
        request_in_memory(m, dev, buf, sector, is_write),
    ensures
        request_in_memory(kicked(m, dev.vq, desc), dev, buf, sector, is_write),
{
    let k = kicked(m, dev.vq, desc);
    assert forall|x: usize|
        x < dev.vq.avail + RING_IDX || dev.vq.avail + RING_ENTRIES + 2 * VIRTQ_ENTRY_NUM <= x implies #[trigger] k(x) == m(x) by {
        lemma_kick_only_touches_avail(m, dev.vq, desc, x);
    }
    let req = dev.req_paddr;
    let d0 = dev.vq.paddr;
    let d1 = (dev.vq.paddr + dev.vq.desc_size) as usize;
    let d2 = (dev.vq.paddr + 2 * dev.vq.desc_size) as usize;
    assert(bytes_at(k, (req + REQ_TYPE) as usize, 4) =~= bytes_at(m, (req + REQ_TYPE) as usize, 4));
    assert(bytes_at(k, (req + REQ_SECTOR) as usize, 8) =~= bytes_at(m, (req + REQ_SECTOR) as usize, 8));
    assert(bytes_at(k, (req + REQ_DATA) as usize, SECTOR_SIZE as nat) =~= bytes_at(m, (req + REQ_DATA) as usize, SECTOR_SIZE as nat));
    assert(bytes_at(k, (d0 + DESC_ADDR) as usize, 8) =~= bytes_at(m, (d0 + DESC_ADDR) as usize, 8));
    assert(bytes_at(k, (d0 + DESC_LEN) as usize, 4) =~= bytes_at(m, (d0 + DESC_LEN) as usize, 4));
    assert(bytes_at(k, (d0 + DESC_FLAGS) as usize, 2) =~= bytes_at(m, (d0 + DESC_FLAGS) as usize, 2));
    assert(bytes_at(k, (d0 + DESC_NEXT) as usize, 2) =~= bytes_at(m, (d0 + DESC_NEXT) as usize, 2));
    assert(bytes_at(k, (d1 + DESC_ADDR) as usize, 8) =~= bytes_at(m, (d1 + DESC_ADDR) as usize, 8));
    assert(bytes_at(k, (d1 + DESC_LEN) as usize, 4) =~= bytes_at(m, (d1 + DESC_LEN) as usize, 4));
    assert(bytes_at(k, (d1 + DESC_FLAGS) as usize, 2) =~= bytes_at(m, (d1 + DESC_FLAGS) as usize, 2));
    assert(bytes_at(k, (d1 + DESC_NEXT) as usize, 2) =~= bytes_at(m, (d1 + DESC_NEXT) as usize, 2));
    assert(bytes_at(k, (d2 + DESC_ADDR) as usize, 8) =~= bytes_at(m, (d2 + DESC_ADDR) as usize, 8));
    assert(bytes_at(k, (d2 + DESC_LEN) as usize, 4) =~= bytes_at(m, (d2 + DESC_LEN) as usize, 4));
    assert(bytes_at(k, (d2 + DESC_FLAGS) as usize, 2) =~= bytes_at(m, (d2 + DESC_FLAGS) as usize, 2));
}

/// The address of the available ring's index.
pub open spec fn avail_idx_addr(vq: VirtioVirtq) -> usize {
    (vq.avail + RING_IDX) as usize
}

/// Memory once the available ring's index has advanced by one, wrapping.
pub open spec fn avail_advanced(m: spec_fn(usize) -> u8, vq: VirtioVirtq) -> spec_fn(usize) -> u8 {
    put_u16(m, avail_idx_addr(vq), ((u16_at(m, avail_idx_addr(vq)) + 1) % 0x10000) as u16)
}

/// Memory once descriptor `desc` is in the next slot of the available ring (the
/// slot is the ring's index modulo the queue size) and the index has advanced.
pub open spec fn kicked(m: spec_fn(usize) -> u8, vq: VirtioVirtq, desc: u16) -> spec_fn(usize) -> u8 {
    let slot = u16_at(m, avail_idx_addr(vq)) as usize % VIRTQ_ENTRY_NUM;
    avail_advanced(put_u16(m, (vq.avail + RING_ENTRIES + 2 * slot) as usize, desc), vq)
}

/// Puts descriptor `desc_index` in the next slot of the available ring,
/// advances the ring's index, and counts one more request that the device has
/// to answer (`last_used_index`), each wrapping; gives back the register write
/// that notifies the device of the queue.
pub fn virtq_kick(mem: &mut PhysMem, vq: &mut VirtioVirtq, desc_index: isize) -> (r: RegOp)
    requires
        old(vq).avail + RING_ENTRIES + 2 * VIRTQ_ENTRY_NUM <= usize::MAX,
    ensures
        final(mem).contents() == kicked(old(mem).contents(), *old(vq), desc_index as u16),
        *final(vq) == (VirtioVirtq {
            last_used_index: ((old(vq).last_used_index + 1) % 0x10000) as u16,
            ..*old(vq)
        }),
        r == (RegOp::Write32 { offset: VIRTIO_REG_QUEUE_NOTIFY, value: old(vq).queue_index as u32 }),
{
    let slot = mem.read_u16(vq.avail + RING_IDX) as usize % VIRTQ_ENTRY_NUM;
    mem.write_u16(vq.avail + RING_ENTRIES + 2 * slot, desc_index as u16);
    let idx = mem.read_u16(vq.avail + RING_IDX);
    mem.write_u16(vq.avail + RING_IDX, idx.wrapping_add(1));
    vq.last_used_index = vq.last_used_index.wrapping_add(1);
    RegOp::Write32 { offset: VIRTIO_REG_QUEUE_NOTIFY, value: vq.queue_index as u32 }
}

/// After a kick, the device finds descriptor `desc` in the ring slot that the
/// index named, and the index one further on, wrapping.
pub proof fn lemma_kick_publishes(m: spec_fn(usize) -> u8, vq: VirtioVirtq, desc: u16)
    requires
        vq.avail + RING_ENTRIES + 2 * VIRTQ_ENTRY_NUM <= usize::MAX,
    ensures
        ({
            let idx = u16_at(m, avail_idx_addr(vq));
            let slot = idx as usize % VIRTQ_ENTRY_NUM;
            let after = kicked(m, vq, desc);
            &&& u16_at(after, (vq.avail + RING_ENTRIES + 2 * slot) as usize) == desc
            &&& u16_at(after, avail_idx_addr(vq)) == (idx + 1) % 0x10000
        }),
{
    let ia = avail_idx_addr(vq);
    let idx = u16_at(m, ia);
    let slot = idx as usize % VIRTQ_ENTRY_NUM;
    let sa = (vq.avail + RING_ENTRIES + 2 * slot) as usize;
    let m1 = put_u16(m, sa, desc);
    lemma_u16_write_read(m, sa, desc);
    assert(u16_at(m1, ia) == idx) by {
        assert(m1(ia) == m(ia));
        assert(m1((ia + 1) as usize) == m((ia + 1) as usize));
    }
    let v = ((idx + 1) % 0x10000) as u16;
    lemma_u16_write_read(m1, ia, v);
    let m2 = put_u16(m1, ia, v);
    assert(u16_at(m2, sa) == desc) by {
        assert(m2(sa) == m1(sa));
        assert(m2((sa + 1) as usize) == m1((sa + 1) as usize));
    }
}

/// Whether the device has used descriptors that the driver has not yet read:
/// the used ring's index differs from `last_used_index`.
pub fn virtq_is_busy(mem: &PhysMem, vq: &VirtioVirtq) -> (r: bool)
    requires
        vq.used + RING_IDX + 1 <= usize::MAX,
    ensures
        r == (u16_at(mem.contents(), (vq.used + RING_IDX) as usize) != vq.last_used_index),
{
    mem.read_u16(vq.used + RING_IDX) != vq.last_used_index
}

impl VirtioBlk {
    /// Sends a request to read (`is_write` false) or write sector `sector`: for a
    /// sector inside the disk, fills in the request and its three descriptors in
    /// memory, makes descriptor 0 available, and counts the request as one the
    /// device has to answer; a sector past the end is refused and nothing changes.
    /// On a well-formed device (`blk_ok`) the device then finds the request as
    /// `request_in_memory` describes it.
    pub fn read_write_disk(&mut self, mem: &mut PhysMem, buf: &[u8], sector: u64, is_write: bool) -> (r: DiskRequest)
        requires
            sector < old(self).capacity / (SECTOR_SIZE as u64) ==> {
                &&& is_write ==> buf@.len() == SECTOR_SIZE
                &&& request_addrs_ok(*old(self))
            },
        ensures
            sector >= old(self).capacity / (SECTOR_SIZE as u64) ==> {
                &&& r == (DiskRequest::OutOfRange {
                    sector,
                    capacity_sectors: old(self).capacity / (SECTOR_SIZE as u64),
                })
                &&& final(mem).contents() == old(mem).contents()
                &&& *final(self) == *old(self)
            },
            sector < old(self).capacity / (SECTOR_SIZE as u64) ==> {
                &&& r == DiskRequest::Notify(
                    RegOp::Write32 { offset: VIRTIO_REG_QUEUE_NOTIFY, value: old(self).vq.queue_index as u32 },
                )
                &&& final(mem).contents() == kicked(
                    request_written(old(mem).contents(), *old(self), buf@, sector, is_write),
                    old(self).vq,
                    0,
                )
                &&& *final(self) == (VirtioBlk {
                    vq: VirtioVirtq {
                        last_used_index: ((old(self).vq.last_used_index + 1) % 0x10000) as u16,
                        ..old(self).vq
                    },
                    ..*old(self)
                })
                &&& blk_ok(*old(self)) ==> request_in_memory(final(mem).contents(), *old(self), buf@, sector, is_write)
            },
    {
        let capacity_sectors = self.capacity / (SECTOR_SIZE as u64);
        if sector >= capacity_sectors {
            return DiskRequest::OutOfRange { sector, capacity_sectors };
        }
        let req = self.req_paddr;
        mem.write_u64(req + REQ_SECTOR, sector);
        mem.write_u32(req + REQ_TYPE, if is_write { VIRTIO_BLK_T_OUT } else { VIRTIO_BLK_T_IN });
        if is_write {
            mem.write_slice(req + REQ_DATA, buf);
        }
        let p = req as u64;
        let d0 = self.vq.paddr;
        mem.write_u64(d0 + DESC_ADDR, p);
        mem.write_u32(d0 + DESC_LEN, BLK_REQ_HEADER_SIZE as u32);
        mem.write_u16(d0 + DESC_FLAGS, VIRTQ_DESC_F_NEXT);
        mem.write_u16(d0 + DESC_NEXT, 1);
        let d1 = self.vq.paddr + self.vq.desc_size;
        mem.write_u64(d1 + DESC_ADDR, p + REQ_DATA as u64);
        mem.write_u32(d1 + DESC_LEN, SECTOR_SIZE as u32);
        mem.write_u16(d1 + DESC_FLAGS, VIRTQ_DESC_F_NEXT | if is_write { 0 } else { VIRTQ_DESC_F_WRITE });
        assert(1u16 | 0u16 == 1u16) by (bit_vector);
        mem.write_u16(d1 + DESC_NEXT, 2);
        let d2 = self.vq.paddr + 2 * self.vq.desc_size;
        mem.write_u64(d2 + DESC_ADDR, p + REQ_STATUS as u64);
        mem.write_u32(d2 + DESC_LEN, 1);
        mem.write_u16(d2 + DESC_FLAGS, VIRTQ_DESC_F_WRITE);
        let ghost before = *self;
        let ghost written = mem.contents();
        let notify = virtq_kick(mem, &mut self.vq, 0);
        proof {
            if blk_ok(before) {
                lemma_request_written_holds(old(mem).contents(), before, buf@, sector, is_write);
                assert(written == request_written(old(mem).contents(), before, buf@, sector, is_write));
                lemma_request_survives_kick(written, before, buf@, sector, is_write, 0);
            }
        }
        DiskRequest::Notify(notify)
    }

    /// Ends a request once the device is done with it: a non-zero status byte
    /// comes back as the error; otherwise a read copies the sector's data from
    /// the request into `buf`.
    pub fn finish_disk_io(&self, mem: &PhysMem, buf: &mut [u8], is_write: bool) -> (r: Result<(), u8>)
        requires
            self.req_paddr + REQ_STATUS + 1 <= usize::MAX,
            mem.contents()((self.req_paddr + REQ_STATUS) as usize) == 0 && !is_write ==> old(buf)@.len()
                == SECTOR_SIZE,
        ensures
            ({
                let status = mem.contents()((self.req_paddr + REQ_STATUS) as usize);
                &&& status != 0 ==> r == Err::<(), u8>(status) && final(buf)@ == old(buf)@
                &&& status == 0 ==> r is Ok
                &&& status == 0 && is_write ==> final(buf)@ == old(buf)@
                &&& status == 0 && !is_write ==> final(buf)@ == bytes_at(
                    mem.contents(),
                    (self.req_paddr + REQ_DATA) as usize,
                    SECTOR_SIZE as nat,
                )
            }),
    {
        let status = mem.read_byte(self.req_paddr + REQ_STATUS);
        if status != 0 {
            return Err(status);
        }
        if !is_write {
            mem.read_slice(self.req_paddr + REQ_DATA, buf);
        }
        Ok(())
    }
}

} // verus!

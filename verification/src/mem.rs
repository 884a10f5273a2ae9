use vstd::prelude::*;
use std::collections::HashMap;

verus! {

broadcast use vstd::std_specs::hash::group_hash_axioms;

/// `m` with the byte at `a` set to `b`.
pub open spec fn update_byte(m: spec_fn(usize) -> u8, a: usize, b: u8) -> spec_fn(usize) -> u8 {
    |x: usize| if x == a { b } else { m(x) }
}

/// `m` with the `n` bytes from `start` on set to zero.
pub open spec fn zero_range(m: spec_fn(usize) -> u8, start: usize, n: usize) -> spec_fn(usize) -> u8 {
    |x: usize| if start <= x < start + n { 0u8 } else { m(x) }
}

/// The little-endian 32-bit word stored at `a`..`a + 3`.
pub open spec fn word_at(m: spec_fn(usize) -> u8, a: usize) -> usize {
    (m(a) as usize) | ((m((a + 1) as usize) as usize) << 8usize) | ((m((a + 2) as usize) as usize)
        << 16usize) | ((m((a + 3) as usize) as usize) << 24usize)
}

/// `m` with the low 32 bits of `v` stored little-endian at `a`..`a + 3`.
pub open spec fn write_word(m: spec_fn(usize) -> u8, a: usize, v: usize) -> spec_fn(usize) -> u8 {
    |x: usize|
        if x == a {
            (v & 0xff) as u8
        } else if x == a + 1 {
            ((v >> 8usize) & 0xff) as u8
        } else if x == a + 2 {
            ((v >> 16usize) & 0xff) as u8
        } else if x == a + 3 {
            ((v >> 24usize) & 0xff) as u8
        } else {
            m(x)
        }
}

/// `m` with the bytes of `s` stored from `a` on.
pub open spec fn write_bytes(m: spec_fn(usize) -> u8, a: usize, s: Seq<u8>) -> spec_fn(usize) -> u8 {
    |x: usize| if a <= x < a + s.len() { s[x - a] } else { m(x) }
}

/// The `n` bytes stored from `a` on.
pub open spec fn bytes_at(m: spec_fn(usize) -> u8, a: usize, n: nat) -> Seq<u8> {
    Seq::new(n, |i: int| m((a + i) as usize))
}

/// The two bytes of `v`, least significant first.
pub open spec fn u16_bytes(v: u16) -> Seq<u8> {
    seq![v as u8, (v >> 8u16) as u8]
}

/// The four bytes of `v`, least significant first.
pub open spec fn u32_bytes(v: u32) -> Seq<u8> {
    seq![v as u8, (v >> 8u32) as u8, (v >> 16u32) as u8, (v >> 24u32) as u8]
}

/// The eight bytes of `v`, least significant first.
pub open spec fn u64_bytes(v: u64) -> Seq<u8> {
    u32_bytes(v as u32) + u32_bytes((v >> 32u64) as u32)
}

/// The little-endian 16-bit value stored at `a` and `a + 1`.
pub open spec fn u16_at(m: spec_fn(usize) -> u8, a: usize) -> u16 {
    (m(a) as u16) | ((m((a + 1) as usize) as u16) << 8u16)
}

/// `m` with `v` stored little-endian from `a` on, for each width.
pub open spec fn put_u16(m: spec_fn(usize) -> u8, a: usize, v: u16) -> spec_fn(usize) -> u8 {
    write_bytes(m, a, u16_bytes(v))
}

pub open spec fn put_u32(m: spec_fn(usize) -> u8, a: usize, v: u32) -> spec_fn(usize) -> u8 {
    write_bytes(m, a, u32_bytes(v))
}

pub open spec fn put_u64(m: spec_fn(usize) -> u8, a: usize, v: u64) -> spec_fn(usize) -> u8 {
    write_bytes(m, a, u64_bytes(v))
}

/// Reading back a 16-bit value that was just stored gives the value.
pub proof fn lemma_u16_write_read(m: spec_fn(usize) -> u8, a: usize, v: u16)
    requires
        a + 1 <= usize::MAX,
    ensures
        u16_at(put_u16(m, a, v), a) == v,
{
    let m2 = put_u16(m, a, v);
    assert(m2(a) == v as u8);
    assert(m2((a + 1) as usize) == (v >> 8u16) as u8);
    assert(((v as u8) as u16) | ((((v >> 8u16) as u8) as u16) << 8u16) == v) by (bit_vector);
}

/// Reading back a word that was just written gives its low 32 bits.
pub proof fn lemma_word_write_read(m: spec_fn(usize) -> u8, a: usize, v: usize)
    requires
        a + 3 <= usize::MAX,
    ensures
        word_at(write_word(m, a, v), a) == v & 0xffff_ffff,
{
    let m2 = write_word(m, a, v);
    assert(m2(a) == (v & 0xff) as u8);
    assert(m2((a + 1) as usize) == ((v >> 8usize) & 0xff) as u8);
    assert(m2((a + 2) as usize) == ((v >> 16usize) & 0xff) as u8);
    assert(m2((a + 3) as usize) == ((v >> 24usize) & 0xff) as u8);
    assert((((v & 0xff) as u8) as usize) | ((((v >> 8usize) & 0xff) as u8) as usize) << 8usize
        | ((((v >> 16usize) & 0xff) as u8) as usize) << 16usize | ((((v >> 24usize) & 0xff) as u8) as usize)
        << 24usize == v & 0xffff_ffff) by (bit_vector);
}

/// Physical memory, byte-addressed. Every address holds a byte; an address that
/// was never written holds zero.
pub struct PhysMem {
    bytes: HashMap<usize, u8>,
}

impl PhysMem {
    /// The byte at address `a`.
    pub closed spec fn byte(&self, a: usize) -> u8 {
        if self.bytes@.contains_key(a) {
            self.bytes@[a]
        } else {
            0
        }
    }

    /// The whole contents, as a function from address to byte.
    pub open spec fn contents(&self) -> spec_fn(usize) -> u8 {
        |a: usize| self.byte(a)
    }

    /// Memory that holds zero everywhere.
    pub fn new() -> (r: PhysMem)
        ensures
            forall|a: usize| #[trigger] r.byte(a) == 0,
    {
        PhysMem { bytes: HashMap::new() }
    }

    /// The byte at `a`.
    pub fn read_byte(&self, a: usize) -> (r: u8)
        ensures
            r == self.byte(a),
    {
        match self.bytes.get(&a) {
            Some(b) => *b,
            None => 0,
        }
    }

    /// Stores `b` at `a`.
    pub fn write_byte(&mut self, a: usize, b: u8)
        ensures
            final(self).contents() == update_byte(old(self).contents(), a, b),
    {
        self.bytes.insert(a, b);
        assert(self.contents() =~= update_byte(old(self).contents(), a, b));
    }

    /// The little-endian 32-bit word at `a`.
    pub fn read_word(&self, a: usize) -> (r: usize)
        requires
            a + 3 <= usize::MAX,
        ensures
            r == word_at(self.contents(), a),
    {
        let b0 = self.read_byte(a) as usize;
        let b1 = self.read_byte(a + 1) as usize;
        let b2 = self.read_byte(a + 2) as usize;
        let b3 = self.read_byte(a + 3) as usize;
        b0 | (b1 << 8usize) | (b2 << 16usize) | (b3 << 24usize)
    }

    /// Stores the low 32 bits of `v` little-endian at `a`.
    pub fn write_word(&mut self, a: usize, v: usize)
        requires
            a + 3 <= usize::MAX,
        ensures
            final(self).contents() == write_word(old(self).contents(), a, v),
    {
        self.write_byte(a, (v & 0xff) as u8);
        self.write_byte(a + 1, ((v >> 8usize) & 0xff) as u8);
        self.write_byte(a + 2, ((v >> 16usize) & 0xff) as u8);
        self.write_byte(a + 3, ((v >> 24usize) & 0xff) as u8);
        assert(self.contents() =~= write_word(old(self).contents(), a, v));
    }

    /// Stores `v` little-endian at `a` and `a + 1`.
    pub fn write_u16(&mut self, a: usize, v: u16)
        requires
            a + 1 <= usize::MAX,
        ensures
            final(self).contents() == put_u16(old(self).contents(), a, v),
    {
        self.write_byte(a, v as u8);
        self.write_byte(a + 1, (v >> 8u16) as u8);
        assert(self.contents() =~= put_u16(old(self).contents(), a, v));
    }

    /// Stores `v` little-endian from `a` to `a + 3`.
    pub fn write_u32(&mut self, a: usize, v: u32)
        requires
            a + 3 <= usize::MAX,
        ensures
            final(self).contents() == put_u32(old(self).contents(), a, v),
    {
        self.write_byte(a, v as u8);
        self.write_byte(a + 1, (v >> 8u32) as u8);
        self.write_byte(a + 2, (v >> 16u32) as u8);
        self.write_byte(a + 3, (v >> 24u32) as u8);
        assert(self.contents() =~= put_u32(old(self).contents(), a, v));
    }

    /// Stores `v` little-endian from `a` to `a + 7`.
    pub fn write_u64(&mut self, a: usize, v: u64)
        requires
            a + 7 <= usize::MAX,
        ensures
            final(self).contents() == put_u64(old(self).contents(), a, v),
    {
        self.write_u32(a, v as u32);
        self.write_u32(a + 4, (v >> 32u64) as u32);
        assert(self.contents() =~= put_u64(old(self).contents(), a, v));
    }

    /// The little-endian 16-bit value at `a` and `a + 1`.
    pub fn read_u16(&self, a: usize) -> (r: u16)
        requires
            a + 1 <= usize::MAX,
        ensures
            r == u16_at(self.contents(), a),
    {
        (self.read_byte(a) as u16) | ((self.read_byte(a + 1) as u16) << 8u16)
    }

    /// Stores the bytes of `s` from `a` on.
    pub fn write_slice(&mut self, a: usize, s: &[u8])
        requires
            a + s@.len() <= usize::MAX + 1,
        ensures
            final(self).contents() == write_bytes(old(self).contents(), a, s@),
    {
        let mut k: usize = 0;
        while k < s.len()
            invariant
                k <= s@.len(),
                a + s@.len() <= usize::MAX + 1,
                self.contents() == write_bytes(old(self).contents(), a, s@.take(k as int)),
            decreases s@.len() - k,
        {
            self.write_byte(a + k, s[k]);
            k = k + 1;
            assert(self.contents() =~= write_bytes(old(self).contents(), a, s@.take(k as int)));
        }
        assert(s@.take(s@.len() as int) =~= s@);
    }

    /// Copies the `buf.len()` bytes from `a` on into `buf`.
    pub fn read_slice(&self, a: usize, buf: &mut [u8])
        requires
            a + old(buf)@.len() <= usize::MAX + 1,
        ensures
            final(buf)@ == bytes_at(self.contents(), a, old(buf)@.len()),
    {
        let mut k: usize = 0;
        while k < buf.len()
            invariant
                buf@.len() == old(buf)@.len(),
                k <= buf@.len(),
                a + buf@.len() <= usize::MAX + 1,
                forall|j: int| 0 <= j < k ==> buf@[j] == self.contents()((a + j) as usize),
            decreases buf@.len() - k,
        {
            buf[k] = self.read_byte(a + k);
            k = k + 1;
        }
        assert(buf@ =~= bytes_at(self.contents(), a, old(buf)@.len()));
    }

    /// Sets the `n` bytes from `start` on to zero.
    pub fn zero(&mut self, start: usize, n: usize)
        requires
            start + n <= usize::MAX + 1,
        ensures
            final(self).contents() == zero_range(old(self).contents(), start, n),
    {
        let mut i: usize = 0;
        while i < n
            invariant
                i <= n,
                start + n <= usize::MAX + 1,
                self.contents() == zero_range(old(self).contents(), start, i),
            decreases n - i,
        {
            self.write_byte(start + i, 0);
            i = i + 1;
            assert(self.contents() =~= zero_range(old(self).contents(), start, i));
        }
    }
}

/// Size of a page, in bytes.
pub const PAGE_SIZE: usize = 4096;
/// Bytes in one page-table entry (a 32-bit word on Sv32).
pub const PTE_SIZE: usize = 4;
/// The MODE bit of `satp` that selects Sv32 translation.
pub const SATP_SV32: usize = 0x8000_0000;
/// Virtual address at which a user image is mapped.
pub const USER_BASE: usize = 0x100_0000;
/// Page-table entry flag: the entry is valid.
pub const PAGE_V: usize = 1;
/// Page-table entry flag: readable.
pub const PAGE_R: usize = 2;
/// Page-table entry flag: writable.
pub const PAGE_W: usize = 4;
/// Page-table entry flag: executable.
pub const PAGE_X: usize = 8;
/// Page-table entry flag: accessible from user mode.
pub const PAGE_U: usize = 16;

/// Index into the first-level table: bits 22..31 of the virtual address.
pub open spec fn vpn1(vaddr: usize) -> usize {
    (vaddr >> 22usize) & 0x3ff
}

/// Index into the second-level table: bits 12..21 of the virtual address.
pub open spec fn vpn0(vaddr: usize) -> usize {
    (vaddr >> 12usize) & 0x3ff
}

/// A first-level entry that points to the table at physical address `table`.
pub open spec fn table_pte(table: usize) -> usize {
    ((table / PAGE_SIZE) << 10usize) | PAGE_V
}

/// A first-level entry for a second-level table is valid (bit 0), carries no
/// permission bit (bits 1 to 4), and names the table's page from bit 10 up, for
/// tables below 2^44 on a 32-bit entry.
pub proof fn lemma_table_entry_bits(table: usize)
    requires
        table / 0x1000 < 0x40_0000,
    ensures
        table_pte(table) & 0x1f == 1,
        table_pte(table) >> 10usize == table / 0x1000,
{
    let pn = table / 0x1000;
    assert(table_pte(table) == (pn << 10usize) | 1usize);
    assert(((pn << 10usize) | 1usize) & 0x1f == 1 && ((pn << 10usize) | 1usize) >> 10usize == pn) by (bit_vector)
        requires
            pn < 0x40_0000,
    ;
}

/// A leaf entry that maps the page of `paddr` with `flags`.
pub open spec fn leaf_pte(paddr: usize, flags: usize) -> usize {
    ((paddr / PAGE_SIZE) << 10usize) | flags | PAGE_V
}

/// Physical address of the table or page that entry `e` points to.
pub open spec fn pte_target(e: usize) -> int {
    (e >> 10usize) * PAGE_SIZE
}

/// Address of the first-level entry for `vaddr` in the table at `table1`.
pub open spec fn dir_entry_addr(table1: usize, vaddr: usize) -> int {
    table1 + vpn1(vaddr) * PTE_SIZE
}

/// Address of the second-level entry for `vaddr` given the first-level entry `e`.
pub open spec fn leaf_entry_addr(e: usize, vaddr: usize) -> int {
    pte_target(e) + vpn0(vaddr) * PTE_SIZE
}

/// The two-level Sv32 walk of `vaddr` from the table at `table1`: the leaf entry,
/// where both levels hold a valid entry.
pub open spec fn translate(m: spec_fn(usize) -> u8, table1: usize, vaddr: usize) -> Option<usize> {
    let e1 = word_at(m, dir_entry_addr(table1, vaddr) as usize);
    if e1 & PAGE_V == 0 {
        None
    } else {
        let e0 = word_at(m, leaf_entry_addr(e1, vaddr) as usize);
        if e0 & PAGE_V == 0 {
            None
        } else {
            Some(e0)
        }
    }
}

/// A range of physical RAM, from `entry_point` up to `end_point`.
#[derive(Clone, Copy, Debug)]
pub struct RAM {
    pub entry_point: usize,
    pub end_point: usize,
}

impl RAM {
    /// The test the page allocator makes on an address: `entry_point >= paddr`
    /// and `end_point <= paddr`.
    pub fn is_valid_address(&self, paddr: usize) -> (r: bool)
        ensures
            r == (self.entry_point >= paddr && self.end_point <= paddr),
    {
        self.entry_point >= paddr && self.end_point <= paddr
    }
}

/// A bump allocator of physical pages: `next_addr` is the next page it hands out,
/// and `oom_reports` counts the "out of memory" reports that it has made and
/// nobody has taken yet.
#[derive(Clone, Copy, Debug)]
pub struct PageManager {
    pub ram: RAM,
    pub next_addr: usize,
    pub oom_reports: usize,
}

/// Whether `alloc_pages` reports "out of memory" when it hands out pages from
/// `paddr`: when `ram.is_valid_address(paddr)` holds.
pub open spec fn reports_oom(ram: RAM, paddr: int) -> bool {
    ram.entry_point >= paddr && ram.end_point <= paddr
}

/// The report count after an allocation from `paddr`: one more where it reports
/// "out of memory" (staying at `usize::MAX` once there).
pub open spec fn oom_bump(count: usize, ram: RAM, paddr: int) -> usize {
    if reports_oom(ram, paddr) && count < usize::MAX {
        (count + 1) as usize
    } else {
        count
    }
}

/// The report count after one-page allocations from `from`, page by page, while
/// the address is below `to`.
pub open spec fn oom_after(count: usize, ram: RAM, from: int, to: int) -> usize
    decreases (if from < to { to - from } else { 0 }),
{
    if from < to {
        oom_after(oom_bump(count, ram, from), ram, from + PAGE_SIZE, to)
    } else {
        count
    }
}

/// One-page allocations from `from` to `mid`, then from `mid` to `to`, report as
/// those from `from` to `to` do.
pub proof fn lemma_oom_after_concat(count: usize, ram: RAM, from: int, mid: int, to: int)
    requires
        from <= mid <= to,
        (mid - from) % (PAGE_SIZE as int) == 0,
    ensures
        oom_after(oom_after(count, ram, from, mid), ram, mid, to) == oom_after(count, ram, from, to),
    decreases mid - from,
{
    if from < mid {
        lemma_oom_after_concat(oom_bump(count, ram, from), ram, from + PAGE_SIZE, mid, to);
    }
}

/// A single one-page allocation from `from` reports as `oom_bump` does, and none
/// leaves the count as it is.
pub proof fn lemma_oom_after_step(count: usize, ram: RAM, from: int)
    ensures
        oom_after(count, ram, from, from) == count,
        oom_after(count, ram, from, from + PAGE_SIZE) == oom_bump(count, ram, from),
{
    reveal_with_fuel(oom_after, 2);
}

/// Memory and next free address after `map_page(table1, vaddr, paddr, flags)`:
/// where the first-level entry of `vaddr` is not valid, a fresh zeroed page from
/// `next` becomes its second-level table; then the leaf entry is written.
pub open spec fn map_page_spec(
    m: spec_fn(usize) -> u8,
    next: usize,
    table1: usize,
    vaddr: usize,
    paddr: usize,
    flags: usize,
) -> (spec_fn(usize) -> u8, usize) {
    let d = dir_entry_addr(table1, vaddr) as usize;
    let e = word_at(m, d);
    let m1 = if e & PAGE_V == 0 {
        write_word(zero_range(m, next, PAGE_SIZE), d, table_pte(next))
    } else {
        m
    };
    let next1 = if e & PAGE_V == 0 {
        (next + PAGE_SIZE) as usize
    } else {
        next
    };
    let e1 = word_at(m1, d);
    (write_word(m1, leaf_entry_addr(e1, vaddr) as usize, leaf_pte(paddr, flags)), next1)
}

/// The inputs on which `map_page` runs to its end: neither address is page aligned,
/// and no address it computes leaves the address space.
pub open spec fn map_page_ok(
    m: spec_fn(usize) -> u8,
    next: usize,
    table1: usize,
    vaddr: usize,
    paddr: usize,
) -> bool {
    let d = dir_entry_addr(table1, vaddr);
    let e = word_at(m, d as usize);
    &&& vaddr % PAGE_SIZE != 0
    &&& paddr % PAGE_SIZE != 0
    &&& d + 3 <= usize::MAX
    &&& if e & PAGE_V == 0 {
        next + PAGE_SIZE <= usize::MAX
    } else {
        leaf_entry_addr(e, vaddr) + 3 <= usize::MAX
    }
}

/// Both table indices of an address are below 1024.
pub proof fn lemma_index_bounds(vaddr: usize)
    ensures
        vpn1(vaddr) <= 0x3ff,
        vpn0(vaddr) <= 0x3ff,
{
    assert((vaddr >> 22usize) & 0x3ff <= 0x3ff) by (bit_vector);
    assert((vaddr >> 12usize) & 0x3ff <= 0x3ff) by (bit_vector);
}

proof fn lemma_fresh_table_entry(p: usize)
    ensures
        (table_pte(p) & 0xffff_ffff) & PAGE_V != 0,
        pte_target(table_pte(p) & 0xffff_ffff) <= p,
{
    assert(((((p / 4096) << 10usize) | 1) & 0xffff_ffff) & 1 != 0) by (bit_vector);
    assert(((((p / 4096) << 10usize) | 1) & 0xffff_ffff) >> 10usize <= p / 4096) by (bit_vector);
}

/// Address of the leaf entry that `map_page` writes for `vaddr`.
pub open spec fn map_page_leaf_addr(m: spec_fn(usize) -> u8, next: usize, table1: usize, vaddr: usize) -> int {
    let d = dir_entry_addr(table1, vaddr) as usize;
    let e = word_at(m, d);
    let e1 = if e & PAGE_V == 0 {
        table_pte(next) & 0xffff_ffff
    } else {
        e
    };
    leaf_entry_addr(e1, vaddr)
}

/// Two 4-byte entries at `a` and `b` share no byte.
pub open spec fn entries_disjoint(a: int, b: int) -> bool {
    a + PTE_SIZE <= b || b + PTE_SIZE <= a
}

/// After `map_page(table1, vaddr, paddr, flags)` the walk of `vaddr` ends in the
/// leaf entry for `paddr` with `flags`, unless the leaf entry is written over the
/// first-level entry itself.
pub proof fn lemma_map_page_translates(
    m: spec_fn(usize) -> u8,
    next: usize,
    table1: usize,
    vaddr: usize,
    paddr: usize,
    flags: usize,
)
    requires
        map_page_ok(m, next, table1, vaddr, paddr),
        entries_disjoint(map_page_leaf_addr(m, next, table1, vaddr), dir_entry_addr(table1, vaddr)),
    ensures
        translate(map_page_spec(m, next, table1, vaddr, paddr, flags).0, table1, vaddr) == Some(
            leaf_pte(paddr, flags) & 0xffff_ffff,
        ),
{
    lemma_index_bounds(vaddr);
    let d = dir_entry_addr(table1, vaddr) as usize;
    let e = word_at(m, d);
    let m1 = if e & PAGE_V == 0 {
        write_word(zero_range(m, next, PAGE_SIZE), d, table_pte(next))
    } else {
        m
    };
    if e & PAGE_V == 0 {
        lemma_word_write_read(zero_range(m, next, PAGE_SIZE), d, table_pte(next));
        lemma_fresh_table_entry(next);
    }
    let e1 = word_at(m1, d);
    let leaf = leaf_entry_addr(e1, vaddr) as usize;
    let m2 = write_word(m1, leaf, leaf_pte(paddr, flags));
    assert(word_at(m2, d) == e1);
    lemma_word_write_read(m1, leaf, leaf_pte(paddr, flags));
    let v = leaf_pte(paddr, flags);
    assert((((paddr / 4096) << 10usize) | flags | 1) & 0xffff_ffff & 1 != 0) by (bit_vector);
}

/// After `map_page(table1, vaddr, paddr, flags)` the walk of `vaddr` ends in a
/// valid entry (bit 0) that carries every bit of `flags` within the 32-bit entry,
/// and, where the flags stay below bit 10, holds the page number of `paddr` from
/// bit 10 up; unless the leaf entry is written over the first-level entry itself.
pub proof fn lemma_map_page_entry_bits(
    m: spec_fn(usize) -> u8,
    next: usize,
    table1: usize,
    vaddr: usize,
    paddr: usize,
    flags: usize,
)
    requires
        map_page_ok(m, next, table1, vaddr, paddr),
        entries_disjoint(map_page_leaf_addr(m, next, table1, vaddr), dir_entry_addr(table1, vaddr)),
    ensures
        ({
            let t = translate(map_page_spec(m, next, table1, vaddr, paddr, flags).0, table1, vaddr);
            &&& t is Some
            &&& t->0 & 1 == 1
            &&& t->0 & (flags & 0xffff_ffff) == flags & 0xffff_ffff
            &&& flags < 0x400 ==> t->0 >> 10usize == (paddr / 0x1000) & 0x3f_ffff
        }),
{
    lemma_map_page_translates(m, next, table1, vaddr, paddr, flags);
    let pn = paddr / 0x1000;
    let e = (((pn << 10usize) | flags | 1usize) & 0xffff_ffffusize) as usize;
    assert(leaf_pte(paddr, flags) & 0xffff_ffff == e);
    assert(e & 1 == 1 && e & (flags & 0xffff_ffff) == flags & 0xffff_ffff) by (bit_vector)
        requires
            e == ((pn << 10usize) | flags | 1usize) & 0xffff_ffffusize,
    ;
    assert(flags < 0x400 ==> e >> 10usize == pn & 0x3f_ffff) by (bit_vector)
        requires
            e == ((pn << 10usize) | flags | 1usize) & 0xffff_ffffusize,
    ;
}

/// `map_page` changes no byte outside the first-level entry of `vaddr`, the leaf
/// entry it writes, and the page it takes for a new second-level table.
pub proof fn lemma_map_page_frame(
    m: spec_fn(usize) -> u8,
    next: usize,
    table1: usize,
    vaddr: usize,
    paddr: usize,
    flags: usize,
    a: usize,
)
    requires
        map_page_ok(m, next, table1, vaddr, paddr),
        !(dir_entry_addr(table1, vaddr) <= a < dir_entry_addr(table1, vaddr) + PTE_SIZE),
        !(map_page_leaf_addr(m, next, table1, vaddr) <= a < map_page_leaf_addr(m, next, table1, vaddr)
            + PTE_SIZE),
        word_at(m, dir_entry_addr(table1, vaddr) as usize) & PAGE_V == 0 ==> !(next <= a < next
            + PAGE_SIZE),
    ensures
        (map_page_spec(m, next, table1, vaddr, paddr, flags).0)(a) == m(a),
{
    lemma_index_bounds(vaddr);
    let d = dir_entry_addr(table1, vaddr) as usize;
    let e = word_at(m, d);
    if e & PAGE_V == 0 {
        lemma_word_write_read(zero_range(m, next, PAGE_SIZE), d, table_pte(next));
        lemma_fresh_table_entry(next);
    }
}

/// Mapping `vaddr` in a table whose first-level entry for it is already valid
/// leaves the walk of any `other` address unchanged, as long as the leaf entry it
/// writes is neither of the two entries that the walk of `other` reads.
pub proof fn lemma_map_page_keeps_other(
    m: spec_fn(usize) -> u8,
    next: usize,
    table1: usize,
    vaddr: usize,
    paddr: usize,
    flags: usize,
    other: usize,
)
    requires
        map_page_ok(m, next, table1, vaddr, paddr),
        word_at(m, dir_entry_addr(table1, vaddr) as usize) & PAGE_V != 0,
        dir_entry_addr(table1, other) + 3 <= usize::MAX,
        leaf_entry_addr(word_at(m, dir_entry_addr(table1, other) as usize), other) + 3 <= usize::MAX,
        entries_disjoint(map_page_leaf_addr(m, next, table1, vaddr), dir_entry_addr(table1, other)),
        entries_disjoint(
            map_page_leaf_addr(m, next, table1, vaddr),
            leaf_entry_addr(word_at(m, dir_entry_addr(table1, other) as usize), other),
        ),
    ensures
        translate(map_page_spec(m, next, table1, vaddr, paddr, flags).0, table1, other) == translate(
            m,
            table1,
            other,
        ),
{
    let m2 = map_page_spec(m, next, table1, vaddr, paddr, flags).0;
    let d2 = dir_entry_addr(table1, other) as usize;
    assert(word_at(m2, d2) == word_at(m, d2));
    let e2 = word_at(m, d2);
    let l2 = leaf_entry_addr(e2, other) as usize;
    assert(word_at(m2, l2) == word_at(m, l2));
}

/// Memory and next free address after mapping every page from `start` on, in steps
/// of a page, while the address stays below `end`, each to itself, with `flags`.
pub open spec fn map_range_spec(
    m: spec_fn(usize) -> u8,
    next: usize,
    table1: usize,
    start: usize,
    end: usize,
    flags: usize,
) -> (spec_fn(usize) -> u8, usize)
    decreases usize::MAX - start,
{
    if start < end && start + PAGE_SIZE <= usize::MAX {
        let r = map_page_spec(m, next, table1, start, start, flags);
        map_range_spec(r.0, r.1, table1, (start + PAGE_SIZE) as usize, end, flags)
    } else {
        (m, next)
    }
}

/// The inputs on which that mapping loop runs to its end: each `map_page` call
/// runs to its end, and the address never steps past the address space.
pub open spec fn map_range_ok(
    m: spec_fn(usize) -> u8,
    next: usize,
    table1: usize,
    start: usize,
    end: usize,
    flags: usize,
) -> bool
    decreases usize::MAX - start,
{
    if start < end {
        if start + PAGE_SIZE <= usize::MAX {
            let r = map_page_spec(m, next, table1, start, start, flags);
            map_page_ok(m, next, table1, start, start) && map_range_ok(
                r.0,
                r.1,
                table1,
                (start + PAGE_SIZE) as usize,
                end,
                flags,
            )
        } else {
            false
        }
    } else {
        true
    }
}

/// Where `alloc_pages(n)` takes its pages from `next`, and where `next` goes after it.
pub open spec fn alloc_spec(next: usize, n: usize) -> (usize, usize) {
    (next, (next + n * PAGE_SIZE) as usize)
}

/// Two allocations in a row hand out ranges that do not overlap: the second
/// starts where the first ends.
pub proof fn lemma_alloc_disjoint(next: usize, n1: usize, n2: usize)
    requires
        next + n1 * PAGE_SIZE <= usize::MAX,
    ensures
        alloc_spec(next, n1).0 + n1 * PAGE_SIZE == alloc_spec(alloc_spec(next, n1).1, n2).0,
{
}

impl PageManager {
    /// Sets the `n` bytes from `buf` on to zero and gives `buf` back.
    pub fn alloc_zero(&self, mem: &mut PhysMem, buf: usize, n: usize) -> (r: usize)
        requires
            buf + n <= usize::MAX + 1,
        ensures
            r == buf,
            final(mem).contents() == zero_range(old(mem).contents(), buf, n),
    {
        mem.zero(buf, n);
        buf
    }

    /// Hands out `n` pages from `next_addr` on, zeroed; where
    /// `ram.is_valid_address` holds of their address, it reports "out of memory"
    /// (one more in `oom_reports`) and hands them out all the same.
    pub fn alloc_pages(&mut self, mem: &mut PhysMem, n: usize) -> (r: usize)
        requires
            old(self).next_addr + n * PAGE_SIZE <= usize::MAX,
        ensures
            (r, final(self).next_addr) == alloc_spec(old(self).next_addr, n),
            final(self).ram == old(self).ram,
            final(self).oom_reports == oom_bump(old(self).oom_reports, old(self).ram, r as int),
            final(mem).contents() == zero_range(old(mem).contents(), r, (n * PAGE_SIZE) as usize),
    {
        let paddr = self.next_addr;
        self.next_addr = paddr + n * PAGE_SIZE;
        if self.ram.is_valid_address(paddr) && self.oom_reports < usize::MAX {
            self.oom_reports = self.oom_reports + 1;
        }
        self.alloc_zero(mem, paddr, n * PAGE_SIZE);
        paddr
    }

    /// Gives back the number of "out of memory" reports made since the last call,
    /// and starts counting again from zero.
    pub fn take_oom_reports(&mut self) -> (r: usize)
        ensures
            r == old(self).oom_reports,
            final(self).oom_reports == 0,
            final(self).ram == old(self).ram,
            final(self).next_addr == old(self).next_addr,
    {
        let r = self.oom_reports;
        self.oom_reports = 0;
        r
    }

    /// Maps the page of `vaddr` to the page of `paddr` with `flags` in the
    /// two-level table at `table1`, making the second-level table on demand.
    pub fn map_page(&mut self, mem: &mut PhysMem, table1: usize, vaddr: usize, paddr: usize, flags: usize)
        requires
            map_page_ok(old(mem).contents(), old(self).next_addr, table1, vaddr, paddr),
        ensures
            final(self).ram == old(self).ram,
            final(self).oom_reports == oom_after(
                old(self).oom_reports,
                old(self).ram,
                old(self).next_addr as int,
                final(self).next_addr as int,
            ),
            (final(mem).contents(), final(self).next_addr) == map_page_spec(
                old(mem).contents(),
                old(self).next_addr,
                table1,
                vaddr,
                paddr,
                flags,
            ),
    {
        proof {
            lemma_index_bounds(vaddr);
            lemma_oom_after_step(self.oom_reports, self.ram, self.next_addr as int);
        }
        let ghost m0 = mem.contents();
        let vpn1 = (vaddr >> 22usize) & 0x3ff;
        let d = table1 + vpn1 * PTE_SIZE;
        let e = mem.read_word(d);
        if e & PAGE_V == 0 {
            let pt = self.alloc_pages(mem, 1);
            mem.write_word(d, ((pt / PAGE_SIZE) << 10usize) | PAGE_V);
            proof {
                lemma_word_write_read(zero_range(m0, pt, PAGE_SIZE), d, table_pte(pt));
                lemma_fresh_table_entry(pt);
            }
        }
        let vpn0 = (vaddr >> 12usize) & 0x3ff;
        let e1 = mem.read_word(d);
        let table0 = (e1 >> 10usize) * PAGE_SIZE;
        mem.write_word(table0 + vpn0 * PTE_SIZE, ((paddr / PAGE_SIZE) << 10usize) | flags | PAGE_V);
    }
}

} // verus!

use kernel::mem::{
    PhysMem, PageManager, RAM, PAGE_SIZE, PAGE_R, PAGE_W, PAGE_X, PAGE_V,
};
use kernel::utils::{align_up, is_aligned};

fn manager(next: usize) -> PageManager {
    PageManager { ram: RAM { entry_point: 0x8000_0000, end_point: 0x8400_0000 }, next_addr: next, oom_reports: 0 }
}

#[test]
fn is_aligned_on_page_boundaries() {
    assert!(is_aligned(0x8000_2000, PAGE_SIZE));
    assert!(!is_aligned(0x8000_2001, PAGE_SIZE));
    assert!(is_aligned(0, 8));
}

#[test]
fn align_up_rounds_to_power_of_two() {
    assert_eq!(align_up(1, 4096), 4096);
    assert_eq!(align_up(4096, 4096), 4096);
    assert_eq!(align_up(4097, 4096), 8192);
    assert_eq!(align_up(0, 8), 0);
    assert_eq!(align_up(13, 8), 16);
}

#[test]
fn align_up_with_other_alignment_uses_the_mask() {
    // (5 + 2) & !2 == 5
    assert_eq!(align_up(5, 3), 5);
}

#[test]
fn is_valid_address_tests_the_inverted_range() {
    let ram = RAM { entry_point: 0x1000, end_point: 0x2000 };
    assert!(!ram.is_valid_address(0x1800));
    assert!(!ram.is_valid_address(0x1000));
    let odd = RAM { entry_point: 0x3000, end_point: 0x1000 };
    assert!(odd.is_valid_address(0x2000));
    assert!(odd.is_valid_address(0x1000));
    assert!(!odd.is_valid_address(0x3001));
}

#[test]
fn fresh_memory_reads_zero() {
    let mem = PhysMem::new();
    assert_eq!(mem.read_byte(0x1234), 0);
    assert_eq!(mem.read_word(0x8000_0000), 0);
}

#[test]
fn word_write_then_read_gives_low_32_bits() {
    let mut mem = PhysMem::new();
    mem.write_word(0x100, 0x1122_3344);
    assert_eq!(mem.read_word(0x100), 0x1122_3344);
    assert_eq!(mem.read_byte(0x100), 0x44);
    assert_eq!(mem.read_byte(0x103), 0x11);
    assert_eq!(mem.read_byte(0x104), 0);
    mem.write_word(0x200, 0xaa_bbcc_ddee_usize & usize::MAX);
    assert_eq!(mem.read_word(0x200), 0xbbcc_ddee);
}

#[test]
fn zero_clears_only_the_range() {
    let mut mem = PhysMem::new();
    mem.write_word(0x10, 0xffff_ffff);
    mem.write_word(0x14, 0xffff_ffff);
    mem.zero(0x11, 4);
    assert_eq!(mem.read_byte(0x10), 0xff);
    assert_eq!(mem.read_byte(0x11), 0);
    assert_eq!(mem.read_byte(0x14), 0);
    assert_eq!(mem.read_byte(0x15), 0xff);
}

#[test]
fn alloc_pages_hands_out_zeroed_pages_in_order() {
    let mut mem = PhysMem::new();
    mem.write_byte(0x8000_1000, 7);
    mem.write_byte(0x8000_2fff, 9);
    mem.write_byte(0x8000_3000, 5);
    let mut mm = manager(0x8000_1000);
    let p1 = mm.alloc_pages(&mut mem, 2);
    assert_eq!(p1, 0x8000_1000);
    assert_eq!(mm.next_addr, 0x8000_3000);
    assert_eq!(mem.read_byte(0x8000_1000), 0);
    assert_eq!(mem.read_byte(0x8000_2fff), 0);
    assert_eq!(mem.read_byte(0x8000_3000), 5);
    let p2 = mm.alloc_pages(&mut mem, 1);
    // two allocations in a row do not overlap: the second starts where the first ends
    assert_eq!(p2, p1 + 2 * PAGE_SIZE);
    assert_eq!(mm.ram.entry_point, 0x8000_0000);
}

#[test]
fn alloc_zero_returns_its_buffer() {
    let mut mem = PhysMem::new();
    mem.write_byte(0x50, 1);
    let mm = manager(0);
    assert_eq!(mm.alloc_zero(&mut mem, 0x50, 1), 0x50);
    assert_eq!(mem.read_byte(0x50), 0);
}

#[test]
fn map_page_builds_second_level_table_and_leaf() {
    let mut mem = PhysMem::new();
    let mut mm = manager(0x8000_1000);
    let table1 = 0x8000_0000;
    let vaddr = 0x0040_1001; // vpn1 = 1, vpn0 = 1
    let paddr = 0x8020_0001;
    mm.map_page(&mut mem, table1, vaddr, paddr, PAGE_R | PAGE_W);
    // a second-level table was taken from the allocator
    assert_eq!(mm.next_addr, 0x8000_2000);
    let dir = mem.read_word(table1 + 4);
    assert_eq!(dir, (0x8000_1usize << 10) | PAGE_V);
    let leaf = mem.read_word(0x8000_1000 + 4);
    assert_eq!(leaf, (0x8020_0usize << 10) | PAGE_R | PAGE_W | PAGE_V);
}

#[test]
fn map_page_then_walk_finds_the_mapping() {
    let mut mem = PhysMem::new();
    let mut mm = manager(0x8000_1000);
    let table1 = 0x8000_0000;
    let vaddr = 0x0123_4567;
    let paddr = 0x8765_4321;
    mm.map_page(&mut mem, table1, vaddr, paddr, PAGE_X);
    let vpn1 = (vaddr >> 22) & 0x3ff;
    let vpn0 = (vaddr >> 12) & 0x3ff;
    let e1 = mem.read_word(table1 + vpn1 * 4);
    assert!(e1 & PAGE_V != 0);
    let e0 = mem.read_word((e1 >> 10) * PAGE_SIZE + vpn0 * 4);
    assert_eq!(e0, ((paddr / PAGE_SIZE) << 10) | PAGE_X | PAGE_V);
}

#[test]
fn map_page_reuses_a_valid_directory_entry() {
    let mut mem = PhysMem::new();
    let mut mm = manager(0x8000_1000);
    let table1 = 0x8000_0000;
    mm.map_page(&mut mem, table1, 0x0040_1001, 0x8020_0001, PAGE_R);
    let next = mm.next_addr;
    mm.map_page(&mut mem, table1, 0x0040_2001, 0x8030_0001, PAGE_W);
    assert_eq!(mm.next_addr, next);
    // the earlier mapping is still in place
    assert_eq!(mem.read_word(0x8000_1000 + 4), (0x8020_0usize << 10) | PAGE_R | PAGE_V);
    assert_eq!(mem.read_word(0x8000_1000 + 8), (0x8030_0usize << 10) | PAGE_W | PAGE_V);
}

#[test]
fn map_page_leaves_other_bytes_alone() {
    let mut mem = PhysMem::new();
    mem.write_byte(0x9000_0000, 0x5a);
    mem.write_byte(0x8000_0008, 0x77);
    let mut mm = manager(0x8000_1000);
    mm.map_page(&mut mem, 0x8000_0000, 0x0040_1001, 0x8020_0001, PAGE_R);
    assert_eq!(mem.read_byte(0x9000_0000), 0x5a);
    assert_eq!(mem.read_byte(0x8000_0008), 0x77);
}

#[test]
fn map_page_with_flags_r_w_x() {
    let mut mem = PhysMem::new();
    let mut mm = manager(0x8000_1000);
    mm.map_page(&mut mem, 0x8000_0000, 0x0000_0001, 0x0000_0001, PAGE_R | PAGE_W | PAGE_X);
    assert_eq!(mem.read_word(0x8000_1000), PAGE_R | PAGE_W | PAGE_X | PAGE_V);
}

#[test]
fn alloc_pages_reports_out_of_memory_where_valid_address_holds() {
    let mut mem = PhysMem::new();
    // with the range inverted, every address between the two ends passes the test
    let mut mm = PageManager {
        ram: RAM { entry_point: 0x8400_0000, end_point: 0x8000_0000 },
        next_addr: 0x8010_0000,
        oom_reports: 0,
    };
    let p = mm.alloc_pages(&mut mem, 2);
    assert_eq!(p, 0x8010_0000);
    assert_eq!(mm.next_addr, 0x8010_2000);
    assert_eq!(mm.oom_reports, 1);
    mm.alloc_pages(&mut mem, 1);
    assert_eq!(mm.take_oom_reports(), 2);
    assert_eq!(mm.oom_reports, 0);
    assert_eq!(mm.next_addr, 0x8010_3000);
}

#[test]
fn alloc_pages_makes_no_report_otherwise() {
    let mut mem = PhysMem::new();
    let mut mm = manager(0x8010_0000);
    mm.alloc_pages(&mut mem, 1);
    assert_eq!(mm.take_oom_reports(), 0);
}

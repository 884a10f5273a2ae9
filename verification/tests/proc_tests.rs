use kernel::mem::{PhysMem, PageManager, RAM, PAGE_SIZE, PAGE_R, PAGE_W, PAGE_X, PAGE_V, SATP_SV32};
use kernel::proc::{
    create_process, ContextSwitch, KernelLayout, ProcState, Process, ProcessManager, PROC_MAX,
    STACK_ENTRY_OFFSET, STACK_SIZE,
};

fn slot(pid: isize, state: ProcState) -> Process {
    Process { pid, state, sp: 0, page_table: 0, stack: [0u8; 8192] }
}

#[test]
fn new_table_is_all_unused() {
    let pm = ProcessManager::new();
    assert_eq!(pm.current_proc_idx, 0);
    assert_eq!(pm.idle_proc_idx, 0);
    for p in pm.procs.iter() {
        assert_eq!(p.pid, -1);
        assert_eq!(p.state, ProcState::UNUSED);
        assert_eq!(p.sp, 0);
        assert_eq!(p.page_table, 0);
        assert!(p.stack.iter().all(|b| *b == 0));
    }
    assert_eq!(pm.procs.len(), PROC_MAX);
}

#[test]
fn free_create_process_takes_first_unused_slot() {
    let mut procs = [slot(-1, ProcState::UNUSED); 8];
    procs[0].state = ProcState::RUNNABLE;
    procs[2].pid = 42;
    let p = create_process(&mut procs, 0x1234_5678);
    assert_eq!(p.pid, 2);
    assert_eq!(p.state, ProcState::RUNNABLE);
    assert_eq!(p.sp, STACK_ENTRY_OFFSET);
    assert_eq!(&p.stack[8144..8148], &[0x78, 0x56, 0x34, 0x12]);
    assert_eq!(procs[1].pid, 2);
    assert_eq!(procs[2].pid, 42);
    assert_eq!(procs[2].state, ProcState::UNUSED);
}

#[test]
fn free_create_process_stores_negative_entry_little_endian() {
    let mut procs = [slot(-1, ProcState::UNUSED); 8];
    let p = create_process(&mut procs, -2);
    assert_eq!(p.pid, 1);
    assert_eq!(&p.stack[8144..8148], &[0xfe, 0xff, 0xff, 0xff]);
}

fn manager(next: usize) -> PageManager {
    PageManager { ram: RAM { entry_point: 0x8000_0000, end_point: 0x8400_0000 }, next_addr: next, oom_reports: 0 }
}

#[test]
fn create_process_without_image_builds_table_but_keeps_slot_fields() {
    let mut pm = ProcessManager::new();
    let mut mem = PhysMem::new();
    let mut mm = manager(0x8010_0000);
    let layout = KernelLayout { kernel_base: 0x8000_0000, free_ram_end: 0x8000_0000, user_entry: 0x8020_0abcu32 as i32 };
    pm.create_process(None, 0, &mut mm, &mut mem, &layout);
    assert_eq!(mm.next_addr, 0x8010_1000);
    let p = &pm.procs[0];
    assert_eq!(p.pid, -1);
    assert_eq!(p.state, ProcState::UNUSED);
    assert_eq!(p.page_table, 0);
    assert_eq!(&p.stack[8144..8148], &[0xbc, 0x0a, 0x20, 0x80]);
}

#[test]
fn create_process_with_image_of_size_zero_becomes_runnable() {
    let mut pm = ProcessManager::new();
    pm.procs[0].state = ProcState::RUNNABLE;
    let mut mem = PhysMem::new();
    let mut mm = manager(0x8010_0000);
    let layout = KernelLayout { kernel_base: 0x8000_0000, free_ram_end: 0x8000_0000, user_entry: 7 };
    let image: [u8; 4] = [1, 2, 3, 4];
    pm.create_process(Some(&image[..]), 0, &mut mm, &mut mem, &layout);
    let p = &pm.procs[1];
    assert_eq!(p.pid, 2);
    assert_eq!(p.state, ProcState::RUNNABLE);
    assert_eq!(p.sp, STACK_ENTRY_OFFSET);
    assert_eq!(p.page_table, 0x8010_0000);
    assert_eq!(pm.procs[0].pid, -1);
}

#[test]
fn create_process_maps_kernel_pages_to_themselves() {
    let mut pm = ProcessManager::new();
    let mut mem = PhysMem::new();
    let mut mm = manager(0x8010_0000);
    // an unaligned kernel base is the only one that map_page accepts
    let layout = KernelLayout { kernel_base: 0x8000_0010, free_ram_end: 0x8000_3000, user_entry: 0 };
    pm.create_process(Some(&[][..]), 0, &mut mm, &mut mem, &layout);
    let table = pm.procs[0].page_table;
    assert_eq!(table, 0x8010_0000);
    // one page for the first-level table, one for the second-level table
    assert_eq!(mm.next_addr, 0x8010_2000);
    for k in 0..3usize {
        let va = 0x8000_0010 + k * PAGE_SIZE;
        let e1 = mem.read_word(table + ((va >> 22) & 0x3ff) * 4);
        assert!(e1 & PAGE_V != 0);
        let e0 = mem.read_word((e1 >> 10) * PAGE_SIZE + ((va >> 12) & 0x3ff) * 4);
        assert_eq!(e0, ((va / PAGE_SIZE) << 10) | PAGE_R | PAGE_W | PAGE_X | PAGE_V);
    }
}

#[test]
fn yield_switches_to_first_ready_slot() {
    let mut pm = ProcessManager::new();
    pm.procs[1] = slot(2, ProcState::RUNNABLE);
    pm.procs[2] = slot(3, ProcState::RUNNABLE);
    pm.procs[2].page_table = 0x8000_5000;
    pm.procs[1].page_table = 0x8000_4000;
    let r = pm.yield_();
    assert_eq!(r, Some(ContextSwitch { prev: 0, next: 1, satp: SATP_SV32 | 0x8000_4, stack_top: STACK_SIZE }));
    assert_eq!(pm.current_proc_idx, 1);
    // from slot 1 the next ready slot is 2
    let r = pm.yield_();
    assert_eq!(r, Some(ContextSwitch { prev: 1, next: 2, satp: SATP_SV32 | 0x8000_5, stack_top: STACK_SIZE }));
    assert_eq!(pm.current_proc_idx, 2);
}

#[test]
fn yield_skips_slots_without_positive_pid() {
    let mut pm = ProcessManager::new();
    pm.procs[1] = slot(0, ProcState::RUNNABLE);
    pm.procs[2] = slot(3, ProcState::STABLE);
    pm.procs[3] = slot(4, ProcState::RUNNABLE);
    let r = pm.yield_();
    assert_eq!(r.map(|s| s.next), Some(3));
}

#[test]
fn yield_stays_when_nothing_else_can_run() {
    let mut pm = ProcessManager::new();
    pm.procs[0] = slot(1, ProcState::RUNNABLE);
    let r = pm.yield_();
    assert_eq!(r, None);
    assert_eq!(pm.current_proc_idx, 0);
}

#[test]
fn yield_falls_back_to_idle() {
    let mut pm = ProcessManager::new();
    pm.idle_proc_idx = 0;
    pm.current_proc_idx = 2;
    pm.procs[0].page_table = 0x8000_9000;
    let r = pm.yield_();
    assert_eq!(r, Some(ContextSwitch { prev: 2, next: 0, satp: SATP_SV32 | 0x8000_9, stack_top: STACK_SIZE }));
    assert_eq!(pm.current_proc_idx, 0);
}

#[test]
fn kernel_main_boots_shell_in_first_slot_and_switches_to_idle() {
    let mut pm = ProcessManager::new();
    let mut mem = PhysMem::new();
    let mut mm = manager(0x8010_0000);
    let layout = KernelLayout { kernel_base: 0x8000_0000, free_ram_end: 0x8000_0000, user_entry: 0x10 };
    let shell: [u8; 0] = [];
    let r = kernel::boot::kernel_main(&mut pm, &mut mm, &mut mem, &layout, Some(&shell[..]), 0);
    assert_eq!(pm.procs[0].pid, 1);
    assert_eq!(pm.procs[0].state, ProcState::RUNNABLE);
    // two first-level tables were taken, one per create_process call
    assert_eq!(pm.procs[0].page_table, 0x8010_1000);
    assert_eq!(mm.next_addr, 0x8010_2000);
    assert_eq!(pm.idle_proc_idx, 1);
    assert_eq!(r, Some(ContextSwitch { prev: 0, next: 1, satp: SATP_SV32, stack_top: STACK_SIZE }));
    assert_eq!(pm.current_proc_idx, 1);
    assert_eq!(pm.procs[0].stack[8144], 0x10);
}

#[test]
fn kernel_main_without_shell_keeps_slot_unused() {
    let mut pm = ProcessManager::new();
    let mut mem = PhysMem::new();
    let mut mm = manager(0x8010_0000);
    let layout = KernelLayout { kernel_base: 0x8000_0000, free_ram_end: 0x8000_0000, user_entry: 0 };
    let r = kernel::boot::kernel_main(&mut pm, &mut mm, &mut mem, &layout, None, 0);
    assert_eq!(pm.procs[0].pid, -1);
    assert_eq!(pm.procs[0].state, ProcState::UNUSED);
    assert_eq!(r.map(|s| s.next), Some(1));
}

#[test]
fn two_ready_slots_take_turns() {
    let mut pm = ProcessManager::new();
    pm.procs[1] = slot(2, ProcState::RUNNABLE);
    pm.procs[3] = slot(4, ProcState::RUNNABLE);
    pm.current_proc_idx = 1;
    assert_eq!(pm.yield_().map(|s| (s.prev, s.next)), Some((1, 3)));
    assert_eq!(pm.yield_().map(|s| (s.prev, s.next)), Some((3, 1)));
    assert_eq!(pm.yield_().map(|s| (s.prev, s.next)), Some((1, 3)));
}

#[test]
fn created_process_is_picked_by_yield() {
    let mut pm = ProcessManager::new();
    pm.procs[0] = slot(-1, ProcState::RUNNABLE);
    let mut mem = PhysMem::new();
    let mut mm = manager(0x8010_0000);
    let layout = KernelLayout { kernel_base: 0, free_ram_end: 0, user_entry: 0 };
    pm.create_process(Some(&[][..]), 0, &mut mm, &mut mem, &layout);
    let r = pm.yield_();
    assert_eq!(r, Some(ContextSwitch { prev: 0, next: 1, satp: SATP_SV32 | (0x8010_0000 / PAGE_SIZE), stack_top: STACK_SIZE }));
}

#[test]
fn pick_next_matches_yield() {
    let mut pm = ProcessManager::new();
    pm.procs[2] = slot(3, ProcState::RUNNABLE);
    assert_eq!(pm.pick_next(), 2);
    pm.current_proc_idx = 2;
    assert_eq!(pm.pick_next(), 0);
}

#[test]
fn create_process_counts_out_of_memory_reports_per_page() {
    let mut pm = ProcessManager::new();
    let mut mem = PhysMem::new();
    // the first-level table's page passes the allocator's test, the second-level
    // table's page (one page further on) does not
    let mut mm = PageManager {
        ram: RAM { entry_point: 0x8010_0000, end_point: 0x8010_0000 },
        next_addr: 0x8010_0000,
        oom_reports: 0,
    };
    let layout = KernelLayout { kernel_base: 0x8000_0010, free_ram_end: 0x8000_3000, user_entry: 0 };
    pm.create_process(Some(&[][..]), 0, &mut mm, &mut mem, &layout);
    assert_eq!(mm.next_addr, 0x8010_2000);
    assert_eq!(mm.take_oom_reports(), 1);
    let mut all = PageManager {
        ram: RAM { entry_point: 0x9000_0000, end_point: 0x8000_0000 },
        next_addr: 0x8010_0000,
        oom_reports: 0,
    };
    let mut pm2 = ProcessManager::new();
    pm2.create_process(Some(&[][..]), 0, &mut all, &mut mem, &layout);
    assert_eq!(all.oom_reports, 2);
}

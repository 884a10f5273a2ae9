use vstd::prelude::*;
use crate::mem::{
    PhysMem, PageManager, PAGE_SIZE, PTE_SIZE, PAGE_R, PAGE_W, PAGE_X, PAGE_U, SATP_SV32, USER_BASE,
    zero_range, map_range_spec, map_range_ok, translate, leaf_pte, oom_after, lemma_oom_after_concat,
    lemma_oom_after_step,
};
use crate::walk::{
    phys_limit, dir_word, table_tree_ok, in_page_range, lemma_map_range_tree, lemma_map_range_next_grows,
};

verus! {

/// Number of slots in the process table.
pub const PROC_MAX: usize = 4;
/// Size of each process's kernel stack, in bytes.
pub const STACK_SIZE: usize = 8192;
/// Offset into the stack of the initial saved stack pointer: twelve 32-bit
/// words below the top, where the entry address is stored.
pub const STACK_ENTRY_OFFSET: usize = 8144;

/// The state of a process-table slot.
#[allow(non_camel_case_types)]
#[derive(Clone, Copy, PartialEq, Eq, Debug, Structural)]
pub enum ProcState {
    RUNNABLE,
    UNUSED,
    STABLE,
}

/// A process-table slot.
///
/// `sp` is the saved stack pointer, kept as an offset into `stack`.
#[derive(Clone, Copy, Debug)]
pub struct Process {
    pub pid: isize,
    pub state: ProcState,
    pub sp: usize,
    pub page_table: usize,
    pub stack: [u8; STACK_SIZE],
}

/// The process table, with the slot that runs now and the slot to fall back to.
#[derive(Debug)]
pub struct ProcessManager {
    pub procs: [Process; PROC_MAX],
    pub current_proc_idx: usize,
    pub idle_proc_idx: usize,
}

/// Addresses that the kernel takes from its link map.
pub struct KernelLayout {
    /// First address of the kernel image.
    pub kernel_base: usize,
    /// End of the free RAM that follows the kernel.
    pub free_ram_end: usize,
    /// The 32-bit address at which a new process starts in kernel mode.
    pub user_entry: i32,
}

/// What `yield_` asks of the machine when it switches: install `satp`, point
/// `sscratch` at `stack_top` bytes past the start of slot `next`'s kernel stack
/// (its top, where the trap entry puts the stack pointer on the next trap), then
/// switch from the stack of slot `prev` to that of slot `next`.
#[derive(Clone, Copy, PartialEq, Eq, Debug, Structural)]
pub struct ContextSwitch {
    pub prev: usize,
    pub next: usize,
    pub satp: usize,
    pub stack_top: usize,
}

/// `s` with the four little-endian bytes of `v` at `STACK_ENTRY_OFFSET`.
pub open spec fn stack_with_entry(s: Seq<u8>, v: i32) -> Seq<u8> {
    let w = v as u32;
    s.update(STACK_ENTRY_OFFSET as int, (w & 0xff) as u8).update(
        STACK_ENTRY_OFFSET + 1,
        ((w >> 8u32) & 0xff) as u8,
    ).update(STACK_ENTRY_OFFSET + 2, ((w >> 16u32) & 0xff) as u8).update(
        STACK_ENTRY_OFFSET + 3,
        ((w >> 24u32) & 0xff) as u8,
    )
}

/// Index of the first slot in `procs` whose state is `UNUSED`, or `procs.len()`.
pub open spec fn first_unused(procs: Seq<Process>) -> int
    decreases procs.len(),
{
    if procs.len() == 0 {
        0
    } else if procs[0].state == ProcState::UNUSED {
        0
    } else {
        1 + first_unused(procs.drop_first())
    }
}

proof fn lemma_first_unused(procs: Seq<Process>)
    ensures
        0 <= first_unused(procs) <= procs.len(),
        forall|j: int| 0 <= j < first_unused(procs) ==> procs[j].state != ProcState::UNUSED,
        first_unused(procs) < procs.len() ==> procs[first_unused(procs)].state == ProcState::UNUSED,
    decreases procs.len(),
{
    if procs.len() > 0 && procs[0].state != ProcState::UNUSED {
        lemma_first_unused(procs.drop_first());
        assert forall|j: int| 0 <= j < first_unused(procs) implies procs[j].state
            != ProcState::UNUSED by {
            if j > 0 {
                assert(procs[j] == procs.drop_first()[j - 1]);
            }
        }
    }
}

/// Some slot of `procs` is `UNUSED`.
pub open spec fn has_unused(procs: Seq<Process>) -> bool {
    exists|j: int| 0 <= j < procs.len() && #[trigger] procs[j].state == ProcState::UNUSED
}

/// Writes `v` little-endian at `STACK_ENTRY_OFFSET` of `stack`.
fn write_stack_entry(stack: &mut [u8; 8192], v: i32)
    ensures
        final(stack)@ == stack_with_entry(old(stack)@, v),
{
    let w = v as u32;
    stack[STACK_ENTRY_OFFSET] = (w & 0xff) as u8;
    stack[STACK_ENTRY_OFFSET + 1] = ((w >> 8u32) & 0xff) as u8;
    stack[STACK_ENTRY_OFFSET + 2] = ((w >> 16u32) & 0xff) as u8;
    stack[STACK_ENTRY_OFFSET + 3] = ((w >> 24u32) & 0xff) as u8;
}

/// Takes the first `UNUSED` slot of `procs`: stores `pc` as the entry address on
/// its stack, gives it pid `i + 1` for slot `i`, makes it `RUNNABLE`, and returns
/// a copy of it.
pub fn create_process(procs: &mut [Process; 8], pc: i32) -> (r: Process)
    requires
        has_unused(old(procs)@),
    ensures
        ({
            let i = first_unused(old(procs)@);
            &&& 0 <= i < 8
            &&& r == final(procs)@[i]
            &&& r.pid == i + 1
            &&& r.state == ProcState::RUNNABLE
            &&& r.sp == STACK_ENTRY_OFFSET
            &&& r.page_table == old(procs)@[i].page_table
            &&& r.stack@ == stack_with_entry(old(procs)@[i].stack@, pc)
            &&& forall|j: int| 0 <= j < 8 && j != i ==> final(procs)@[j] == old(procs)@[j]
        }),
{
    proof {
        lemma_first_unused(procs@);
    }
    let mut i: usize = 0;
    while i < 8
        invariant
            0 <= i <= 8,
            procs@ == old(procs)@,
            has_unused(procs@),
            forall|j: int| 0 <= j < i ==> procs@[j].state != ProcState::UNUSED,
            0 <= first_unused(procs@) <= 8,
            forall|j: int| 0 <= j < first_unused(procs@) ==> procs@[j].state != ProcState::UNUSED,
            first_unused(procs@) < 8 ==> procs@[first_unused(procs@)].state == ProcState::UNUSED,
        decreases 8 - i,
    {
        if procs[i].state == ProcState::UNUSED {
            assert(i == first_unused(procs@));
            write_stack_entry(&mut procs[i].stack, pc);
            procs[i].pid = (i + 1) as isize;
            procs[i].state = ProcState::RUNNABLE;
            procs[i].sp = STACK_ENTRY_OFFSET;
            return procs[i];
        }
        i = i + 1;
    }
    proof {
        let j = choose|j: int| 0 <= j < procs@.len() && #[trigger] procs@[j].state == ProcState::UNUSED;
        assert(procs@[j].state == ProcState::UNUSED);
    }
    unreached()
}

/// Slot `i` can be switched to: it is `RUNNABLE` and has a positive pid.
pub open spec fn is_ready(p: Process) -> bool {
    p.state == ProcState::RUNNABLE && p.pid > 0
}

/// The first slot from `i` on, other than `current`, that can be switched to;
/// `idle` where there is none.
pub open spec fn pick_from(procs: Seq<Process>, current: usize, idle: usize, i: int) -> usize
    decreases PROC_MAX - i,
{
    if i >= PROC_MAX || i < 0 {
        idle
    } else if i != current && is_ready(procs[i]) {
        i as usize
    } else {
        pick_from(procs, current, idle, i + 1)
    }
}

proof fn lemma_pick_from(procs: Seq<Process>, current: usize, idle: usize, i: int)
    requires
        0 <= i <= PROC_MAX,
        procs.len() == PROC_MAX,
    ensures
        ({
            let n = pick_from(procs, current, idle, i);
            ||| (n == idle && forall|j: int|
                i <= j < PROC_MAX ==> !(j != current && #[trigger] is_ready(procs[j])))
            ||| (i <= n < PROC_MAX && n != current && is_ready(procs[n as int]) && forall|j: int|
                i <= j < n ==> !(j != current && #[trigger] is_ready(procs[j])))
        }),
    decreases PROC_MAX - i,
{
    if i < PROC_MAX {
        lemma_pick_from(procs, current, idle, i + 1);
    }
}

/// The slot that `yield_` picks for the table `pm`.
pub open spec fn next_proc(pm: &ProcessManager) -> usize {
    pick_from(pm.procs@, pm.current_proc_idx, pm.idle_proc_idx, 0)
}

/// `yield_` picks a slot other than the current one that is `RUNNABLE` with a
/// positive pid, and among those the first; only where there is none does it
/// fall back to the idle slot.
pub proof fn lemma_yield_picks_first_ready(pm: &ProcessManager)
    ensures
        ({
            let n = next_proc(pm);
            ||| (n == pm.idle_proc_idx && forall|j: int|
                0 <= j < PROC_MAX ==> !(j != pm.current_proc_idx && #[trigger] is_ready(
                    pm.procs@[j],
                )))
            ||| (n < PROC_MAX && n != pm.current_proc_idx && is_ready(pm.procs@[n as int])
                && forall|j: int|
                0 <= j < n ==> !(j != pm.current_proc_idx && #[trigger] is_ready(pm.procs@[j])))
        }),
{
    lemma_pick_from(pm.procs@, pm.current_proc_idx, pm.idle_proc_idx, 0);
}

/// Where some slot other than the current one can run, `yield_` switches to a
/// slot that can run, never back to the current one.
pub proof fn lemma_yield_leaves_current(pm: &ProcessManager, j: int)
    requires
        0 <= j < PROC_MAX,
        j != pm.current_proc_idx,
        is_ready(pm.procs@[j]),
    ensures
        next_proc(pm) != pm.current_proc_idx,
        is_ready(pm.procs@[next_proc(pm) as int]),
        next_proc(pm) <= j,
{
    lemma_pick_from(pm.procs@, pm.current_proc_idx, pm.idle_proc_idx, 0);
}

/// With exactly two slots that can run, `yield_` from either one switches to the
/// other, so the two take turns.
pub proof fn lemma_two_ready_take_turns(pm: &ProcessManager, a: int, b: int)
    requires
        0 <= a < PROC_MAX,
        0 <= b < PROC_MAX,
        a != b,
        is_ready(pm.procs@[a]),
        is_ready(pm.procs@[b]),
        forall|j: int| 0 <= j < PROC_MAX && j != a && j != b ==> !is_ready(#[trigger] pm.procs@[j]),
        pm.current_proc_idx == a,
    ensures
        next_proc(pm) == b,
{
    lemma_yield_picks_first_ready(pm);
    lemma_yield_leaves_current(pm, b);
}

/// The value of `satp` that selects Sv32 with the table at `page_table`.
pub open spec fn satp_for(page_table: usize) -> usize {
    SATP_SV32 | (page_table / PAGE_SIZE)
}

/// The `satp` value of a switch selects Sv32 translation (bit 31) and names the
/// page of the first-level table in its low bits: the page number comes back by
/// masking bit 31 off, for any table below 2^43.
pub proof fn lemma_satp_names_table(page_table: usize)
    requires
        page_table / 0x1000 < 0x8000_0000,
    ensures
        satp_for(page_table) & 0x8000_0000 == 0x8000_0000,
        satp_for(page_table) & 0x7fff_ffff == page_table / 0x1000,
{
    let pn = page_table / 0x1000;
    assert(satp_for(page_table) == 0x8000_0000usize | pn);
    assert((0x8000_0000usize | pn) & 0x8000_0000 == 0x8000_0000 && (0x8000_0000usize | pn) & 0x7fff_ffff == pn)
        by (bit_vector)
        requires
            pn < 0x8000_0000,
    ;
}

/// Memory and next free address after `create_process` has built the table of a
/// new process: a fresh zeroed page at `next`, then every kernel page from
/// `kernel_base` up to `free_ram_end` mapped to itself, readable, writable and
/// executable.
pub open spec fn kernel_table_spec(m: spec_fn(usize) -> u8, next: usize, layout: KernelLayout) -> (
    spec_fn(usize) -> u8,
    usize,
) {
    map_range_spec(
        zero_range(m, next, PAGE_SIZE),
        (next + PAGE_SIZE) as usize,
        next,
        layout.kernel_base,
        layout.free_ram_end,
        PAGE_R | PAGE_W | PAGE_X,
    )
}

/// The inputs on which `create_process` runs to its end: a slot is free, the
/// pages it takes stay in the address space, no kernel page is refused by
/// `map_page`, and there is no user image to map (the first image page sits at
/// the page-aligned `USER_BASE`, which `map_page` refuses).
pub open spec fn create_process_ok(
    pm: &ProcessManager,
    image_present: bool,
    image_size: i32,
    next: usize,
    m: spec_fn(usize) -> u8,
    layout: KernelLayout,
) -> bool {
    &&& has_unused(pm.procs@)
    &&& next + PAGE_SIZE <= usize::MAX
    &&& map_range_ok(
        zero_range(m, next, PAGE_SIZE),
        (next + PAGE_SIZE) as usize,
        next,
        layout.kernel_base,
        layout.free_ram_end,
        PAGE_R | PAGE_W | PAGE_X,
    )
    &&& (!image_present || image_size <= 0)
}

/// In the table that `create_process` builds, every kernel page (from
/// `kernel_base` on, in steps of a page, below `free_ram_end`) maps to itself,
/// readable, writable and executable; provided the allocator starts on a page
/// boundary, the kernel range spans at most 4 GiB, and the tables stay below the
/// Sv32 limit.
pub proof fn lemma_kernel_pages_identity_mapped(m: spec_fn(usize) -> u8, next: usize, layout: KernelLayout)
    requires
        next % PAGE_SIZE == 0,
        next + PAGE_SIZE <= usize::MAX,
        map_range_ok(
            zero_range(m, next, PAGE_SIZE),
            (next + PAGE_SIZE) as usize,
            next,
            layout.kernel_base,
            layout.free_ram_end,
            PAGE_R | PAGE_W | PAGE_X,
        ),
        kernel_table_spec(m, next, layout).1 <= phys_limit(),
        layout.free_ram_end <= layout.kernel_base + 0x1_0000_0000,
    ensures
        forall|va: usize|
            in_page_range(va, layout.kernel_base, layout.free_ram_end) ==> #[trigger] translate(
                kernel_table_spec(m, next, layout).0,
                next,
                va,
            ) == Some(leaf_pte(va, PAGE_R | PAGE_W | PAGE_X) & 0xffff_ffff),
{
    let m0 = zero_range(m, next, PAGE_SIZE);
    let n0 = (next + PAGE_SIZE) as usize;
    assert forall|k: int| 0 <= k < 1024 implies #[trigger] dir_word(m0, next, k) == 0 by {
        let a = (next + k * PTE_SIZE) as usize;
        assert(m0(a) == 0 && m0((a + 1) as usize) == 0 && m0((a + 2) as usize) == 0 && m0((a + 3) as usize) == 0);
        assert((0u8 as usize) | ((0u8 as usize) << 8usize) | ((0u8 as usize) << 16usize) | ((0u8 as usize)
            << 24usize) == 0) by (bit_vector);
    }
    assert(0usize & 1usize == 0) by (bit_vector);
    lemma_map_range_next_grows(m0, n0, next, layout.kernel_base, layout.free_ram_end, PAGE_R | PAGE_W | PAGE_X);
    assert(table_tree_ok(m0, next, n0));
    lemma_map_range_tree(m0, n0, next, layout.kernel_base, layout.free_ram_end, PAGE_R | PAGE_W | PAGE_X);
}

/// Maps every page from `start` on, while the address stays below `end`, to itself.
fn map_identity(
    mem_manager: &mut PageManager,
    mem: &mut PhysMem,
    table1: usize,
    start: usize,
    end: usize,
    flags: usize,
)
    requires
        map_range_ok(old(mem).contents(), old(mem_manager).next_addr, table1, start, end, flags),
    ensures
        final(mem_manager).ram == old(mem_manager).ram,
        final(mem_manager).oom_reports == oom_after(
            old(mem_manager).oom_reports,
            old(mem_manager).ram,
            old(mem_manager).next_addr as int,
            final(mem_manager).next_addr as int,
        ),
        old(mem_manager).next_addr <= final(mem_manager).next_addr,
        (final(mem_manager).next_addr - old(mem_manager).next_addr) % (PAGE_SIZE as int) == 0,
        (final(mem).contents(), final(mem_manager).next_addr) == map_range_spec(
            old(mem).contents(),
            old(mem_manager).next_addr,
            table1,
            start,
            end,
            flags,
        ),
{
    let ghost target = map_range_spec(
        mem.contents(),
        mem_manager.next_addr,
        table1,
        start,
        end,
        flags,
    );
    let mut paddr = start;
    while paddr < end
        invariant
            mem_manager.ram == old(mem_manager).ram,
            mem_manager.oom_reports == oom_after(
                old(mem_manager).oom_reports,
                old(mem_manager).ram,
                old(mem_manager).next_addr as int,
                mem_manager.next_addr as int,
            ),
            old(mem_manager).next_addr <= mem_manager.next_addr,
            (mem_manager.next_addr - old(mem_manager).next_addr) % (PAGE_SIZE as int) == 0,
            map_range_ok(mem.contents(), mem_manager.next_addr, table1, paddr, end, flags),
            map_range_spec(mem.contents(), mem_manager.next_addr, table1, paddr, end, flags)
                == target,
        decreases usize::MAX - paddr,
    {
        let ghost before = *mem_manager;
        mem_manager.map_page(mem, table1, paddr, paddr, flags);
        proof {
            lemma_oom_after_concat(
                old(mem_manager).oom_reports,
                before.ram,
                old(mem_manager).next_addr as int,
                before.next_addr as int,
                mem_manager.next_addr as int,
            );
        }
        paddr = paddr + PAGE_SIZE;
    }
}

impl ProcessManager {
    /// The table as the kernel starts with it: every slot `UNUSED` with pid -1, a
    /// zero stack pointer, no page table and a zeroed stack; slot 0 current and idle.
    pub fn new() -> (r: ProcessManager)
        ensures
            r.current_proc_idx == 0,
            r.idle_proc_idx == 0,
            forall|i: int|
                0 <= i < PROC_MAX ==> {
                    &&& (#[trigger] r.procs@[i]).pid == -1
                    &&& r.procs@[i].state == ProcState::UNUSED
                    &&& r.procs@[i].sp == 0
                    &&& r.procs@[i].page_table == 0
                    &&& forall|k: int| 0 <= k < STACK_SIZE ==> r.procs@[i].stack@[k] == 0
                },
    {
        let p = Process {
            pid: -1,
            state: ProcState::UNUSED,
            sp: 0,
            page_table: 0,
            stack: [0u8; 8192],
        };
        ProcessManager { procs: [p, p, p, p], current_proc_idx: 0, idle_proc_idx: 0 }
    }

    /// Sets up the first `UNUSED` slot `i`: stores the kernel entry address on its
    /// stack, builds its page table (a fresh page, with the kernel pages mapped to
    /// themselves), and, where an image is given, gives it pid `i + 1`, makes it
    /// `RUNNABLE`, and records its stack pointer and page table. Without an image
    /// the slot's fields other than the stack stay as they were.
    pub fn create_process(
        &mut self,
        image: Option<&[u8]>,
        image_size: i32,
        mem_manager: &mut PageManager,
        mem: &mut PhysMem,
        layout: &KernelLayout,
    )
        requires
            create_process_ok(
                old(self),
                image is Some,
                image_size,
                old(mem_manager).next_addr,
                old(mem).contents(),
                *layout,
            ),
        ensures
            ({
                let i = first_unused(old(self).procs@);
                let pt = old(mem_manager).next_addr;
                let built = kernel_table_spec(old(mem).contents(), pt, *layout);
                let p0 = old(self).procs@[i];
                let p1 = final(self).procs@[i];
                &&& 0 <= i < PROC_MAX
                &&& final(mem).contents() == built.0
                &&& final(mem_manager).next_addr == built.1
                &&& final(mem_manager).ram == old(mem_manager).ram
                &&& final(mem_manager).oom_reports == oom_after(
                    old(mem_manager).oom_reports,
                    old(mem_manager).ram,
                    pt as int,
                    built.1 as int,
                )
                &&& pt + PAGE_SIZE <= built.1
                &&& (built.1 - pt) % (PAGE_SIZE as int) == 0
                &&& final(self).current_proc_idx == old(self).current_proc_idx
                &&& final(self).idle_proc_idx == old(self).idle_proc_idx
                &&& forall|j: int| 0 <= j < PROC_MAX && j != i ==> final(self).procs@[j] == old(
                    self,
                ).procs@[j]
                &&& p1.stack@ == stack_with_entry(p0.stack@, layout.user_entry)
                &&& image is None ==> {
                    &&& p1.pid == p0.pid
                    &&& p1.state == p0.state
                    &&& p1.sp == p0.sp
                    &&& p1.page_table == p0.page_table
                }
                &&& image is Some ==> {
                    &&& p1.pid == i + 1
                    &&& p1.state == ProcState::RUNNABLE
                    &&& p1.sp == STACK_ENTRY_OFFSET
                    &&& p1.page_table == pt
                }
            }),
    {
        proof {
            lemma_first_unused(self.procs@);
        }
        let mut i: usize = 0;
        while i < PROC_MAX
            invariant
                0 <= i <= PROC_MAX,
                *self == *old(self),
                *mem_manager == *old(mem_manager),
                *mem == *old(mem),
                create_process_ok(
                    self,
                    image is Some,
                    image_size,
                    mem_manager.next_addr,
                    mem.contents(),
                    *layout,
                ),
                forall|j: int| 0 <= j < i ==> self.procs@[j].state != ProcState::UNUSED,
                0 <= first_unused(self.procs@) <= PROC_MAX,
                forall|j: int|
                    0 <= j < first_unused(self.procs@) ==> self.procs@[j].state
                        != ProcState::UNUSED,
                first_unused(self.procs@) < PROC_MAX ==> self.procs@[first_unused(
                    self.procs@,
                )].state == ProcState::UNUSED,
            decreases PROC_MAX - i,
        {
            if self.procs[i].state == ProcState::UNUSED {
                assert(i == first_unused(self.procs@));
                write_stack_entry(&mut self.procs[i].stack, layout.user_entry);

                let page_table = mem_manager.alloc_pages(mem, 1);
                assert(mem.contents() == zero_range(old(mem).contents(), page_table, PAGE_SIZE));
                proof {
                    lemma_oom_after_step(old(mem_manager).oom_reports, old(mem_manager).ram, page_table as int);
                }
                let ghost mm_table = *mem_manager;
                map_identity(
                    mem_manager,
                    mem,
                    page_table,
                    layout.kernel_base,
                    layout.free_ram_end,
                    PAGE_R | PAGE_W | PAGE_X,
                );
                proof {
                    lemma_oom_after_concat(
                        old(mem_manager).oom_reports,
                        old(mem_manager).ram,
                        page_table as int,
                        mm_table.next_addr as int,
                        mem_manager.next_addr as int,
                    );
                }

                let img = match image {
                    None => {
                        return ;
                    },
                    Some(img) => img,
                };

                let ghost self_before = *self;
                let ghost mm_before = *mem_manager;
                let ghost mem_before = *mem;
                let mut offset: i32 = 0;
                while offset < image_size
                    invariant
                        offset == 0,
                        image_size <= 0,
                        *self == self_before,
                        *mem_manager == mm_before,
                        *mem == mem_before,
                    decreases image_size - offset,
                {
                    let page = mem_manager.alloc_pages(mem, 1);
                    let mut k: usize = 0;
                    while k < PAGE_SIZE
                        invariant
                            offset < image_size <= 0,
                            offset == 0,
                        decreases PAGE_SIZE - k,
                    {
                        mem.write_byte(page + k, img[offset as usize + k]);
                        k = k + 1;
                    }
                    mem_manager.map_page(
                        mem,
                        page_table,
                        USER_BASE + offset as usize,
                        page,
                        PAGE_U | PAGE_R | PAGE_W | PAGE_X,
                    );
                    offset = offset + PAGE_SIZE as i32;
                }

                self.procs[i].pid = (i + 1) as isize;
                self.procs[i].state = ProcState::RUNNABLE;
                self.procs[i].sp = STACK_ENTRY_OFFSET;
                self.procs[i].page_table = page_table;
                return ;
            }
            i = i + 1;
        }
        proof {
            let j = choose|j: int|
                0 <= j < self.procs@.len() && #[trigger] self.procs@[j].state == ProcState::UNUSED;
            assert(self.procs@[j].state == ProcState::UNUSED);
        }
        unreached()
    }

    /// The slot that `yield_` switches to: the first slot other than the current
    /// one that is `RUNNABLE` with a positive pid, or the idle slot.
    pub fn pick_next(&self) -> (r: usize)
        ensures
            r == next_proc(self),
    {
        let mut next = self.idle_proc_idx;
        let mut i: usize = 0;
        while i < PROC_MAX
            invariant_except_break
                0 <= i <= PROC_MAX,
                pick_from(self.procs@, self.current_proc_idx, self.idle_proc_idx, i as int)
                    == next_proc(self),
                next == self.idle_proc_idx,
            ensures
                next == next_proc(self),
            decreases PROC_MAX - i,
        {
            if i != self.current_proc_idx && self.procs[i].state == ProcState::RUNNABLE
                && self.procs[i].pid > 0 {
                next = i;
                break;
            }
            i = i + 1;
        }
        next
    }

    /// Picks the first slot other than the current one that is `RUNNABLE` with a
    /// positive pid, or the idle slot where there is none. Where that is the
    /// current slot nothing changes and `None` comes back; otherwise the picked
    /// slot becomes current and the switch to it comes back.
    pub fn yield_(&mut self) -> (r: Option<ContextSwitch>)
        requires
            next_proc(old(self)) == old(self).current_proc_idx || (next_proc(old(self)) < PROC_MAX
                && old(self).current_proc_idx < PROC_MAX),
        ensures
            ({
                let n = next_proc(old(self));
                if n == old(self).current_proc_idx {
                    &&& r is None
                    &&& *final(self) == *old(self)
                } else {
                    &&& r == Some(
                        ContextSwitch {
                            prev: old(self).current_proc_idx,
                            next: n,
                            satp: satp_for(old(self).procs@[n as int].page_table),
                            stack_top: STACK_SIZE,
                        },
                    )
                    &&& final(self).current_proc_idx == n
                    &&& final(self).procs == old(self).procs
                    &&& final(self).idle_proc_idx == old(self).idle_proc_idx
                }
            }),
    {
        let next = self.pick_next();
        if next == self.current_proc_idx {
            return None;
        }
        let satp = SATP_SV32 | self.procs[next].page_table / PAGE_SIZE;
        let prev = self.current_proc_idx;
        self.current_proc_idx = next;
        Some(ContextSwitch { prev, next, satp, stack_top: STACK_SIZE })
    }
}

} // verus!

use vstd::prelude::*;
use crate::mem::{PhysMem, PageManager, oom_after, lemma_oom_after_concat};
use crate::proc::{
    ProcessManager, ProcState, ContextSwitch, KernelLayout, PROC_MAX, STACK_ENTRY_OFFSET,
    first_unused, has_unused, kernel_table_spec, create_process_ok, stack_with_entry,
    pick_from, satp_for, STACK_SIZE,
};

verus! {

/// The inputs on which `kernel_main` runs to its end: both `create_process` calls
/// do, the second on the memory and allocator that the first leaves (the slot
/// states do not change in between).
pub open spec fn boot_procs_ok(
    pm: &ProcessManager,
    mm: &PageManager,
    mem: &PhysMem,
    layout: KernelLayout,
    shell_present: bool,
    shell_size: i32,
) -> bool {
    let first = kernel_table_spec(mem.contents(), mm.next_addr, layout);
    &&& create_process_ok(pm, false, 0, mm.next_addr, mem.contents(), layout)
    &&& create_process_ok(pm, shell_present, shell_size, first.1, first.0, layout)
}

proof fn lemma_first_unused_same_states(a: Seq<crate::proc::Process>, b: Seq<crate::proc::Process>)
    requires
        a.len() == b.len(),
        forall|k: int| 0 <= k < a.len() ==> a[k].state == b[k].state,
    ensures
        first_unused(a) == first_unused(b),
    decreases a.len(),
{
    if a.len() > 0 {
        assert(a[0].state == b[0].state);
        lemma_first_unused_same_states(a.drop_first(), b.drop_first());
    }
}

proof fn lemma_pick_bound(procs: Seq<crate::proc::Process>, current: usize, idle: usize, i: int)
    requires
        idle < PROC_MAX,
    ensures
        pick_from(procs, current, idle, i) < PROC_MAX,
    decreases PROC_MAX - i,
{
    if 0 <= i < PROC_MAX {
        lemma_pick_bound(procs, current, idle, i + 1);
    }
}

/// Brings up the process table the way the kernel does at boot: an image-less
/// process (whose slot stays `UNUSED`), pid -1 for slot 0, slot 1 as the idle slot
/// and slot 0 as the current one, then the process of the shell image, and
/// finally a `yield_`.
pub fn kernel_main(
    pm: &mut ProcessManager,
    mm: &mut PageManager,
    mem: &mut PhysMem,
    layout: &KernelLayout,
    shell: Option<&[u8]>,
    shell_size: i32,
) -> (r: Option<ContextSwitch>)
    requires
        boot_procs_ok(old(pm), old(mm), old(mem), *layout, shell is Some, shell_size),
    ensures
        ({
            let i = first_unused(old(pm).procs@);
            let first = kernel_table_spec(old(mem).contents(), old(mm).next_addr, *layout);
            let second = kernel_table_spec(first.0, first.1, *layout);
            &&& 0 <= i < PROC_MAX
            &&& final(mem).contents() == second.0
            &&& final(mm).next_addr == second.1
            &&& final(mm).ram == old(mm).ram
            &&& final(mm).oom_reports == oom_after(
                old(mm).oom_reports,
                old(mm).ram,
                old(mm).next_addr as int,
                second.1 as int,
            )
            &&& final(pm).idle_proc_idx == 1
            &&& forall|j: int| 0 <= j < PROC_MAX && j != i && j != 0 ==> final(pm).procs@[j] == old(pm).procs@[j]
            &&& final(pm).procs@[i].stack@ == stack_with_entry(
                stack_with_entry(old(pm).procs@[i].stack@, layout.user_entry),
                layout.user_entry,
            )
            &&& shell is Some ==> {
                &&& final(pm).procs@[i].pid == i + 1
                &&& final(pm).procs@[i].state == ProcState::RUNNABLE
                &&& final(pm).procs@[i].sp == STACK_ENTRY_OFFSET
                &&& final(pm).procs@[i].page_table == first.1
            }
            &&& shell is None ==> {
                &&& final(pm).procs@[i].state == old(pm).procs@[i].state
                &&& final(pm).procs@[i].sp == old(pm).procs@[i].sp
                &&& final(pm).procs@[i].page_table == old(pm).procs@[i].page_table
                &&& i != 0 ==> final(pm).procs@[i].pid == old(pm).procs@[i].pid
            }
            &&& i != 0 ==> final(pm).procs@[0] == (crate::proc::Process { pid: -1isize, ..old(pm).procs@[0] })
            &&& (i == 0 && shell is None) ==> final(pm).procs@[0].pid == -1
            &&& ({
                let n = pick_from(final(pm).procs@, 0, 1, 0);
                if n == 0 {
                    r is None && final(pm).current_proc_idx == 0
                } else {
                    &&& r == Some(ContextSwitch { prev: 0, next: n, satp: satp_for(final(pm).procs@[n as int].page_table), stack_top: STACK_SIZE })
                    &&& final(pm).current_proc_idx == n
                }
            })
        }),
{
    let ghost i = first_unused(pm.procs@);
    pm.create_process(None, 0, mm, mem, layout);
    let ghost mm_first = *mm;
    pm.procs[0].pid = -1;
    pm.idle_proc_idx = 1;
    pm.current_proc_idx = 0;
    proof {
        let j = choose|j: int| 0 <= j < old(pm).procs@.len() && #[trigger] old(pm).procs@[j].state == ProcState::UNUSED;
        assert(pm.procs@[j].state == old(pm).procs@[j].state);
        assert(has_unused(pm.procs@));
        assert forall|k: int| 0 <= k < PROC_MAX implies pm.procs@[k].state == old(pm).procs@[k].state by {}
        assert(first_unused(pm.procs@) == i) by {
            lemma_first_unused_same_states(old(pm).procs@, pm.procs@);
        }
    }
    pm.create_process(shell, shell_size, mm, mem, layout);
    proof {
        lemma_oom_after_concat(
            old(mm).oom_reports,
            old(mm).ram,
            old(mm).next_addr as int,
            mm_first.next_addr as int,
            mm.next_addr as int,
        );
        lemma_pick_bound(pm.procs@, 0, 1, 0);
    }
    pm.yield_()
}

} // verus!

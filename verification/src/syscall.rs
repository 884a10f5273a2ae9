use vstd::prelude::*;
use crate::proc::{ProcessManager, Process, ProcState, ContextSwitch, PROC_MAX, next_proc, pick_from, satp_for, STACK_SIZE};
use crate::trap::trap_frame;
use crate::user::{SYS_PUTCHAR, SYS_GETCHAR, SYS_EXIT};

verus! {

/// What a system call asks of the machine.
#[derive(Clone, Copy, PartialEq, Eq, Debug, Structural)]
pub enum SyscallAction {
    /// Print the character on the console; the call is done.
    Putchar(char),
    /// Ask the console for a character and hand the answer to `getchar_step`.
    Getchar,
    /// Slot `exited` has ended; switch away from it.
    Exit { exited: usize, switch: ContextSwitch },
}

/// Where a getchar system call stands after a console answer.
#[derive(Clone, Copy, PartialEq, Eq, Debug, Structural)]
pub enum GetcharStep {
    /// The character is in `a0`; the call is done.
    Done,
    /// No character yet: give the processor away (where `yield_` switched), then
    /// ask the console again.
    Yield(Option<ContextSwitch>),
}

/// The slots of `pm` once its current slot is marked `UNUSED`.
pub open spec fn procs_after_exit(pm: &ProcessManager) -> Seq<Process> {
    let cur = pm.current_proc_idx as int;
    pm.procs@.update(cur, Process { state: ProcState::UNUSED, ..pm.procs@[cur] })
}

/// The slot that the exit system call switches to.
pub open spec fn exit_next(pm: &ProcessManager) -> usize {
    pick_from(procs_after_exit(pm), pm.current_proc_idx, pm.idle_proc_idx, 0)
}

/// The inputs on which `handle_syscall` runs to its end: the number in `a3` is
/// one of the three system calls, and an exit call comes from a slot of the table
/// and finds another slot to switch to (the exit call never returns to its caller).
pub open spec fn syscall_ok(pm: &ProcessManager, frame: trap_frame) -> bool {
    ||| frame.a3 == SYS_PUTCHAR
    ||| frame.a3 == SYS_GETCHAR
    ||| (frame.a3 == SYS_EXIT && pm.current_proc_idx < PROC_MAX && exit_next(pm) < PROC_MAX
        && exit_next(pm) != pm.current_proc_idx)
}

/// Handles the system call in `frame` with the full set of calls (the trap
/// handler's own `trap::handle_syscall` serves only printing): printing asks for
/// the character of `a0`; reading asks the console; exiting marks the current
/// slot `UNUSED` and switches to the slot that `yield_` picks.
pub fn handle_syscall(pm: &mut ProcessManager, frame: &mut trap_frame) -> (r: SyscallAction)
    requires
        syscall_ok(old(pm), *old(frame)),
    ensures
        *final(frame) == *old(frame),
        old(frame).a3 == SYS_PUTCHAR ==> r == SyscallAction::Putchar((old(frame).a0 as u8) as char)
            && *final(pm) == *old(pm),
        old(frame).a3 == SYS_GETCHAR ==> r == SyscallAction::Getchar && *final(pm) == *old(pm),
        old(frame).a3 == SYS_EXIT ==> {
            let cur = old(pm).current_proc_idx;
            let n = exit_next(old(pm));
            &&& final(pm).procs@ == procs_after_exit(old(pm))
            &&& final(pm).current_proc_idx == n
            &&& final(pm).idle_proc_idx == old(pm).idle_proc_idx
            &&& r == (SyscallAction::Exit {
                exited: cur,
                switch: ContextSwitch { prev: cur, next: n, satp: satp_for(old(pm).procs@[n as int].page_table), stack_top: STACK_SIZE },
            })
        },
{
    if frame.a3 == SYS_PUTCHAR {
        SyscallAction::Putchar((frame.a0 as u8) as char)
    } else if frame.a3 == SYS_GETCHAR {
        SyscallAction::Getchar
    } else {
        let cur = pm.current_proc_idx;
        pm.procs[cur].state = ProcState::UNUSED;
        assert(pm.procs@ == procs_after_exit(old(pm)));
        match pm.yield_() {
            Some(switch) => SyscallAction::Exit { exited: cur, switch },
            None => unreached(),
        }
    }
}

/// A slot that the exit system call has ended is never picked by `yield_`
/// again, unless it is the idle slot: `after` is any table whose slots are those
/// of `before` once the exit of its current slot has marked it `UNUSED`.
pub proof fn lemma_exited_not_rescheduled(before: &ProcessManager, after: &ProcessManager)
    requires
        before.current_proc_idx < PROC_MAX,
        after.procs@ == procs_after_exit(before),
    ensures
        next_proc(after) != before.current_proc_idx || before.current_proc_idx == after.idle_proc_idx,
{
    crate::proc::lemma_yield_picks_first_ready(after);
    assert(after.procs@[before.current_proc_idx as int].state == ProcState::UNUSED);
}

/// Goes on with a getchar system call once the console answered `ch`: a
/// character (`ch >= 0`) goes to `a0` and ends the call; otherwise the processor
/// is given away with `yield_`.
pub fn getchar_step(pm: &mut ProcessManager, frame: &mut trap_frame, ch: i32) -> (r: GetcharStep)
    requires
        ch < 0 ==> (next_proc(old(pm)) == old(pm).current_proc_idx || (next_proc(old(pm)) < PROC_MAX
            && old(pm).current_proc_idx < PROC_MAX)),
    ensures
        ch >= 0 ==> r == GetcharStep::Done && *final(frame) == (trap_frame { a0: ch, ..*old(frame) })
            && *final(pm) == *old(pm),
        ch < 0 ==> *final(frame) == *old(frame) && ({
            let n = next_proc(old(pm));
            if n == old(pm).current_proc_idx {
                r == GetcharStep::Yield(None) && *final(pm) == *old(pm)
            } else {
                &&& r == GetcharStep::Yield(
                    Some(ContextSwitch { prev: old(pm).current_proc_idx, next: n, satp: satp_for(old(pm).procs@[n as int].page_table), stack_top: STACK_SIZE }),
                )
                &&& final(pm).current_proc_idx == n
                &&& final(pm).procs == old(pm).procs
                &&& final(pm).idle_proc_idx == old(pm).idle_proc_idx
            }
        }),
{
    if ch >= 0 {
        frame.a0 = ch;
        GetcharStep::Done
    } else {
        GetcharStep::Yield(pm.yield_())
    }
}

} // verus!

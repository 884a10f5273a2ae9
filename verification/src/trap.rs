use vstd::prelude::*;
use crate::user::SYS_PUTCHAR;

verus! {

/// `scause` value of an environment call from user mode.
pub const SCAUSE_ECALL: i32 = 8;

/// The registers that the trap entry saves on the kernel stack, in the order it
/// saves them.
#[allow(non_camel_case_types)]
#[derive(Clone, Copy, PartialEq, Eq, Debug, Structural)]
pub struct trap_frame {
    pub ra: i32,
    pub gp: i32,
    pub t0: i32,
    pub t1: i32,
    pub t2: i32,
    pub t3: i32,
    pub t4: i32,
    pub t5: i32,
    pub t6: i32,
    pub a0: i32,
    pub a1: i32,
    pub a2: i32,
    pub a3: i32,
    pub a4: i32,
    pub a5: i32,
    pub a6: i32,
    pub a7: i32,
    pub s0: i32,
    pub s1: i32,
    pub s2: i32,
    pub s3: i32,
    pub s4: i32,
    pub s5: i32,
    pub s6: i32,
    pub s7: i32,
    pub s8: i32,
    pub s9: i32,
    pub s10: i32,
    pub s11: i32,
    pub sp: i32,
}

/// What the trap handler does with a trap.
#[derive(Clone, Copy, PartialEq, Eq, Debug, Structural)]
pub enum TrapAction {
    /// A system call: handle it, then resume the user program at `next_pc`.
    Syscall { next_pc: i32 },
    /// Any other trap: report the three registers and stop.
    Unexpected { scause: i32, stval: i32, sepc: i32 },
}

/// Decides on a trap from `scause`, `stval` and `sepc`: a system call resumes at
/// the instruction after the `ecall`.
pub fn handle_trap(scause: i32, stval: i32, sepc: i32) -> (r: TrapAction)
    requires
        scause == SCAUSE_ECALL ==> sepc + 4 <= i32::MAX,
    ensures
        scause == SCAUSE_ECALL ==> r == (TrapAction::Syscall { next_pc: (sepc + 4) as i32 }),
        scause != SCAUSE_ECALL ==> r == (TrapAction::Unexpected { scause, stval, sepc }),
{
    if scause == SCAUSE_ECALL {
        TrapAction::Syscall { next_pc: sepc + 4 }
    } else {
        TrapAction::Unexpected { scause, stval, sepc }
    }
}

/// Handles the system call in `frame` the way the trap handler does: it serves
/// only the print call, and gives back the character to print, the low byte of
/// `a0`. Any other number is refused by the handler (it stops the kernel), so
/// it is left out here.
pub fn handle_syscall(frame: &trap_frame) -> (r: char)
    requires
        frame.a3 == SYS_PUTCHAR,
    ensures
        r == (frame.a0 as u8) as char,
{
    (frame.a0 as u8) as char
}

} // verus!

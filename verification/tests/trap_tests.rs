use kernel::proc::{ContextSwitch, ProcState, Process, ProcessManager, STACK_SIZE};
use kernel::mem::SATP_SV32;
use kernel::syscall::{getchar_step, handle_syscall, GetcharStep, SyscallAction};
use kernel::trap::{handle_trap, trap_frame, TrapAction, SCAUSE_ECALL};
use kernel::user::{SYS_EXIT, SYS_GETCHAR, SYS_PUTCHAR};

fn frame(a0: i32, a3: i32) -> trap_frame {
    trap_frame {
        ra: 0, gp: 0, t0: 0, t1: 0, t2: 0, t3: 0, t4: 0, t5: 0, t6: 0, a0, a1: 0, a2: 0, a3,
        a4: 0, a5: 0, a6: 0, a7: 0, s0: 0, s1: 0, s2: 0, s3: 0, s4: 0, s5: 0, s6: 0, s7: 0,
        s8: 0, s9: 0, s10: 0, s11: 0, sp: 0,
    }
}

fn ready(pid: isize, page_table: usize) -> Process {
    Process { pid, state: ProcState::RUNNABLE, sp: 0, page_table, stack: [0u8; 8192] }
}

#[test]
fn trap_handler_syscall_prints_low_byte_of_a0() {
    let f = frame(0x142, SYS_PUTCHAR);
    assert_eq!(kernel::trap::handle_syscall(&f), 'B');
    assert_eq!(kernel::trap::handle_syscall(&frame(0x0a, SYS_PUTCHAR)), '\n');
}

#[test]
fn ecall_resumes_after_the_instruction() {
    assert_eq!(handle_trap(SCAUSE_ECALL, 0, 0x100), TrapAction::Syscall { next_pc: 0x104 });
}

#[test]
fn other_traps_are_unexpected() {
    assert_eq!(
        handle_trap(2, 0x33, 0x200),
        TrapAction::Unexpected { scause: 2, stval: 0x33, sepc: 0x200 }
    );
}

#[test]
fn putchar_syscall_prints_low_byte_of_a0() {
    let mut pm = ProcessManager::new();
    let mut f = frame(0x141, SYS_PUTCHAR);
    assert_eq!(handle_syscall(&mut pm, &mut f), SyscallAction::Putchar('A'));
    assert_eq!(f.a0, 0x141);
}

#[test]
fn getchar_syscall_asks_console_then_fills_a0() {
    let mut pm = ProcessManager::new();
    let mut f = frame(0, SYS_GETCHAR);
    assert_eq!(handle_syscall(&mut pm, &mut f), SyscallAction::Getchar);
    assert_eq!(getchar_step(&mut pm, &mut f, 97), GetcharStep::Done);
    assert_eq!(f.a0, 97);
}

#[test]
fn getchar_without_input_yields() {
    let mut pm = ProcessManager::new();
    pm.procs[0] = ready(1, 0);
    pm.procs[1] = ready(2, 0x8000_3000);
    let mut f = frame(5, SYS_GETCHAR);
    let step = getchar_step(&mut pm, &mut f, -1);
    assert_eq!(
        step,
        GetcharStep::Yield(Some(ContextSwitch { prev: 0, next: 1, satp: SATP_SV32 | 0x8000_3, stack_top: STACK_SIZE }))
    );
    assert_eq!(f.a0, 5);
    assert_eq!(pm.current_proc_idx, 1);
    // nothing else can run: the yield stays put
    let mut alone = ProcessManager::new();
    alone.procs[0] = ready(1, 0);
    assert_eq!(getchar_step(&mut alone, &mut f, -1), GetcharStep::Yield(None));
}

#[test]
fn exit_marks_slot_unused_and_switches() {
    let mut pm = ProcessManager::new();
    pm.procs[0] = ready(-1, 0);
    pm.procs[1] = ready(2, 0x8000_1000);
    pm.procs[2] = ready(3, 0x8000_2000);
    pm.idle_proc_idx = 0;
    pm.current_proc_idx = 1;
    let mut f = frame(0, SYS_EXIT);
    let r = handle_syscall(&mut pm, &mut f);
    assert_eq!(
        r,
        SyscallAction::Exit {
            exited: 1,
            switch: ContextSwitch { prev: 1, next: 2, satp: SATP_SV32 | 0x8000_2, stack_top: STACK_SIZE },
        }
    );
    assert_eq!(pm.procs[1].state, ProcState::UNUSED);
    assert_eq!(pm.current_proc_idx, 2);
    // the exited slot is never picked again
    let r2 = pm.yield_();
    assert_eq!(r2, Some(ContextSwitch { prev: 2, next: 0, satp: SATP_SV32, stack_top: STACK_SIZE }));
    assert_ne!(pm.current_proc_idx, 1);
}

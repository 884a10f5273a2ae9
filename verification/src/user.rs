use vstd::prelude::*;

verus! {

/// System call number: print the character in `a0`.
pub const SYS_PUTCHAR: i32 = 1;
/// System call number: read a character into `a0`.
pub const SYS_GETCHAR: i32 = 2;
/// System call number: end the calling process.
pub const SYS_EXIT: i32 = 3;

/// A system call as user code issues it: the number goes in `a3`, the
/// arguments in `a0`..`a2`; the kernel's answer comes back in `a0`.
#[derive(Clone, Copy, PartialEq, Eq, Debug, Structural)]
pub struct Syscall {
    pub sysno: i32,
    pub arg0: i32,
    pub arg1: i32,
    pub arg2: i32,
}

/// The system call that prints `c`.
pub open spec fn putchar_syscall(c: char) -> Syscall {
    Syscall { sysno: SYS_PUTCHAR, arg0: c as i32, arg1: 0, arg2: 0 }
}

/// The system call that prints `c`.
pub fn putchar(c: char) -> (r: Syscall)
    ensures
        r == putchar_syscall(c),
{
    Syscall { sysno: SYS_PUTCHAR, arg0: c as i32, arg1: 0, arg2: 0 }
}

/// The system call that reads a character.
pub fn getchar_request() -> (r: Syscall)
    ensures
        r == (Syscall { sysno: SYS_GETCHAR, arg0: 0, arg1: 0, arg2: 0 }),
{
    Syscall { sysno: SYS_GETCHAR, arg0: 0, arg1: 0, arg2: 0 }
}

/// The character that the getchar system call answered with `ret`: its low byte.
pub fn getchar(ret: i32) -> (r: char)
    ensures
        r == ((ret as u8) as char),
{
    (ret as u8) as char
}

/// The console of a user program.
pub struct Writer {}

impl Writer {
    /// The system calls that print `s`, one putchar per character, in order.
    pub fn write_byte(&mut self, s: &str) -> (r: Vec<Syscall>)
        ensures
            r@ == s@.map_values(|c: char| putchar_syscall(c)),
    {
        let mut out: Vec<Syscall> = Vec::new();
        for c in it: s.chars()
            invariant
                it.seq() == s@,
                out@ == it.seq().take(it.index() as int).map_values(|c: char| putchar_syscall(c)),
        {
            out.push(putchar(c));
        }
        out
    }
}

} // verus!

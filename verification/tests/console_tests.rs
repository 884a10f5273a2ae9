use kernel::io::{self, SbiCall, SbiRet};
use kernel::user::{self, Syscall, SYS_GETCHAR, SYS_PUTCHAR};

#[test]
fn kernel_putchar_is_console_putchar_call() {
    let c = io::putchar('A');
    assert_eq!(c, SbiCall { arg0: 65, arg1: 0, arg2: 0, arg3: 0, arg4: 0, arg5: 0, fid: 0, eid: 1 });
}

#[test]
fn kernel_getchar_request_and_answer() {
    let c = io::getchar_request();
    assert_eq!(c.eid, 2);
    assert_eq!(c.arg0, 0);
    assert_eq!(io::getchar(SbiRet { error: -1, value: 0 }), -1);
    assert_eq!(io::getchar(SbiRet { error: 104, value: 9 }), 104);
}

#[test]
fn kernel_writer_emits_one_call_per_char() {
    let mut w = io::Writer {};
    let calls = w.write_byte("hé!");
    let args: Vec<i32> = calls.iter().map(|c| c.arg0).collect();
    assert_eq!(args, vec![104, 0xe9, 33]);
    assert!(calls.iter().all(|c| c.eid == 1));
    assert!(w.write_byte("").is_empty());
}

#[test]
fn user_putchar_is_putchar_syscall() {
    assert_eq!(user::putchar('x'), Syscall { sysno: SYS_PUTCHAR, arg0: 120, arg1: 0, arg2: 0 });
}

#[test]
fn user_getchar_keeps_low_byte() {
    assert_eq!(user::getchar_request(), Syscall { sysno: SYS_GETCHAR, arg0: 0, arg1: 0, arg2: 0 });
    assert_eq!(user::getchar(0x41), 'A');
    assert_eq!(user::getchar(0x141), 'A');
    assert_eq!(user::getchar(-1), '\u{ff}');
}

#[test]
fn user_writer_emits_one_syscall_per_char() {
    let mut w = user::Writer {};
    let calls = w.write_byte("ok");
    assert_eq!(calls, vec![user::putchar('o'), user::putchar('k')]);
}

use kernel::shell::{strcmp, strcmp2, ShellCommand, ShellLine};

#[test]
fn strcmp_matches_equal_text() {
    assert!(strcmp("exit", &['e', 'x', 'i', 't']));
}

#[test]
fn strcmp_accepts_longer_target() {
    assert!(strcmp("exit", &['e', 'x', 'i', 't', 's']));
}

#[test]
fn strcmp_rejects_first_mismatch() {
    assert!(!strcmp("exit", &['e', 'q']));
    assert!(!strcmp("exit", &['x']));
}

#[test]
fn strcmp_of_empty_text_is_true() {
    assert!(strcmp("", &[]));
}

#[test]
fn strcmp_indexes_target_by_byte_offset() {
    // 'é' takes two bytes, so 'a' is held against target[2]
    assert!(strcmp("éa", &['é', 'x', 'a']));
    assert!(!strcmp("éa", &['é', 'a', 'x']));
}

#[test]
fn strcmp2_compares_up_to_nul() {
    assert!(strcmp2(&['a', 'b', '\0'], &['a', 'b', 'c']));
    assert!(!strcmp2(&['a', 'b', '\0'], &['a', 'c', 'c']));
    assert!(strcmp2(&['\0'], &['z']));
}

#[test]
fn shell_line_reads_until_return() {
    let mut line = ShellLine::new();
    for c in "exit".chars() {
        assert!(!line.push(c));
    }
    assert!(line.push('\r'));
    assert_eq!(line.idx, 4);
    assert_eq!(line.command(), ShellCommand::Exit);
}

#[test]
fn shell_line_other_command_is_unknown() {
    let mut line = ShellLine::new();
    for c in "exec".chars() {
        line.push(c);
    }
    assert_eq!(line.command(), ShellCommand::Unknown);
    let mut longer = ShellLine::new();
    for c in "exited".chars() {
        longer.push(c);
    }
    assert_eq!(longer.command(), ShellCommand::Exit);
}

//! Traps and signal names.

use conch::shell::Shell;
use conch::text_map::TextMap;
use conch::traps::{parse_signal_spec, TrapAction};

fn new_shell() -> Shell {
    Shell::new("/work".to_string(), TextMap::new(), 4242)
}

#[test]
fn trap_set_by_name_accepts_name_with_or_without_sig_prefix() {
    let mut shell = new_shell();
    shell
        .trap_set_by_name("USR1", TrapAction::Command("echo a".to_string()))
        .unwrap();
    shell
        .trap_set_by_name("SIGUSR2", TrapAction::Command("echo b".to_string()))
        .unwrap();
    assert_eq!(
        shell.trap_for(Some("SIGUSR1")),
        Some(&TrapAction::Command("echo a".to_string()))
    );
    assert_eq!(
        shell.trap_for(Some("SIGUSR2")),
        Some(&TrapAction::Command("echo b".to_string()))
    );
}

#[test]
fn trap_set_by_name_rejects_an_unrecognized_signal() {
    let mut shell = new_shell();
    assert!(
        shell
            .trap_set_by_name("NOTASIGNAL", TrapAction::Ignore)
            .is_err()
    );
}

#[test]
fn trap_set_by_name_exit_stores_the_exit_trap_not_a_signal_trap() {
    let mut shell = new_shell();
    shell
        .trap_set_by_name("EXIT", TrapAction::Command("echo bye".to_string()))
        .unwrap();
    assert_eq!(shell.exit_trap(), Some("echo bye"));
    assert!(shell.traps_iter().into_iter().next().is_none());
}

#[test]
fn trap_describe_by_name_is_none_when_nothing_is_trapped() {
    let shell = new_shell();
    assert_eq!(shell.trap_describe_by_name("USR1").unwrap(), None);
}

#[test]
fn trap_describe_by_name_reports_a_registered_command_trap() {
    let mut shell = new_shell();
    shell
        .trap_set_by_name("USR1", TrapAction::Command("echo caught".to_string()))
        .unwrap();
    let line = shell.trap_describe_by_name("USR1").unwrap().unwrap();
    assert!(line.contains("echo caught"));
    assert!(line.contains("USR1") || line.contains("SIGUSR1"));
}

#[test]
fn trap_describe_by_name_reports_an_ignored_signal_as_non_empty() {
    let mut shell = new_shell();
    shell.trap_set_by_name("USR1", TrapAction::Ignore).unwrap();
    assert!(shell.trap_describe_by_name("USR1").unwrap().is_some());
}

#[test]
fn trap_default_after_ignore_clears_the_registration() {
    let mut shell = new_shell();
    shell.trap_set_by_name("USR1", TrapAction::Ignore).unwrap();
    shell.trap_set_by_name("USR1", TrapAction::Default).unwrap();
    assert_eq!(shell.trap_describe_by_name("USR1").unwrap(), None);
}

#[test]
fn trap_list_includes_every_registered_signal_and_exit() {
    let mut shell = new_shell();
    shell
        .trap_set_by_name("USR1", TrapAction::Command("echo a".to_string()))
        .unwrap();
    shell
        .trap_set_by_name("EXIT", TrapAction::Command("echo bye".to_string()))
        .unwrap();
    let lines = shell.trap_list();
    assert!(lines.iter().any(|l| l.contains("echo a")));
    assert!(
        lines
            .iter()
            .any(|l| l.contains("echo bye") && l.contains("EXIT"))
    );
}

#[test]
fn parse_signal_spec_accepts_a_number() {
    assert_eq!(parse_signal_spec("9"), Ok(Some("SIGKILL".to_string())));
}

#[test]
fn parse_signal_spec_accepts_exit_case_insensitively() {
    assert_eq!(parse_signal_spec("exit"), Ok(None));
    assert_eq!(parse_signal_spec("EXIT"), Ok(None));
}

//! The builtin commands.

use conch::builtins::{
    cd_finished, dispositions_set, register_all, resolve_signals, run_builtin, signals_resolved,
    wait_for_child_finished, BuiltinStep, DirectoryChange,
};
use conch::shell::{Builtin, ControlFlow, Shell};
use conch::text_map::TextMap;

fn new_shell() -> Shell {
    Shell::new("/work".to_string(), TextMap::new(), 4242)
}

fn directory(target: &str) -> DirectoryChange {
    if target == "/tmp" {
        DirectoryChange::Changed("/tmp".to_string())
    } else {
        DirectoryChange::Refused("No such file or directory".to_string())
    }
}

fn run(builtin: Builtin, shell: &mut Shell, args: &[String]) -> (i32, String, String) {
    let mut step = run_builtin(builtin, shell, &args.to_vec());
    loop {
        step = match step {
            BuiltinStep::Done(ran) => return (ran.status, ran.stdout, ran.stderr),
            BuiltinStep::ChangeDirectory(target) => {
                let change = directory(&target);
                cd_finished(shell, &target, change)
            }
            BuiltinStep::ResolveSignals { args, specs } => {
                let named = resolve_signals(&specs);
                signals_resolved(shell, &args, &named)
            }
            BuiltinStep::SetDispositions { ran, changes } => {
                let installed = vec![true; changes.len()];
                dispositions_set(shell, &changes, &installed);
                BuiltinStep::Done(ran)
            }
            BuiltinStep::WaitForChild(waiting) => wait_for_child_finished(shell, waiting, None),
            other => panic!("unexpected step: {other:?}"),
        };
    }
}

#[test]
fn register_all_registers_every_builtin() {
    let mut shell = new_shell();
    register_all(&mut shell);
    for name in [
        "cd", "exit", "export", "echo", "pwd", "break", "continue", "local", "return", "set",
        "shift",
    ] {
        assert!(shell.builtin(name).is_some(), "missing builtin: {name}");
    }
}

#[test]
fn register_all_classifies_special_vs_regular_builtins_per_posix_2_9_1() {
    let mut shell = new_shell();
    register_all(&mut shell);
    for name in [
        "break", "continue", "exit", "export", "return", "set", "shift",
    ] {
        assert!(
            shell.is_special_builtin(name),
            "expected {name} to be special"
        );
    }
    for name in ["cd", "echo", "pwd", "local"] {
        assert!(
            !shell.is_special_builtin(name),
            "expected {name} to be regular"
        );
    }
}

#[test]
fn export_with_value_sets_env_var() {
    let mut shell = new_shell();
    run(Builtin::Export, &mut shell, &["FOO=bar".to_string()]);
    assert_eq!(shell.get_var("FOO"), Some("bar"));
}

#[test]
fn bare_export_promotes_shell_var() {
    let mut shell = new_shell();
    shell
        .shell_vars
        .insert("FOO".to_string(), "bar".to_string());
    run(Builtin::Export, &mut shell, &["FOO".to_string()]);
    assert_eq!(shell.get_var("FOO"), Some("bar"));
    assert!(!shell.shell_vars.contains_key("FOO"));
}

#[test]
fn cd_updates_cwd() {
    let mut shell = new_shell();
    let original = shell.cwd.clone();
    let (status, _, _) = run(Builtin::Cd, &mut shell, &["/tmp".to_string()]);
    assert_eq!(status, 0);
    assert_ne!(shell.cwd, original);
}

#[test]
fn cd_nonexistent_dir_fails() {
    let mut shell = new_shell();
    let (status, _, stderr) = run(Builtin::Cd, &mut shell, &["/no/such/path/hopefully".to_string()]);
    assert_eq!(status, 1);
    assert!(!stderr.is_empty());
}

#[test]
fn echo_writes_args_to_stdout() {
    let mut shell = new_shell();
    let (status, stdout, _) = run(Builtin::Echo, &mut shell, &["hi".to_string(), "there".to_string()]);
    assert_eq!(status, 0);
    assert_eq!(stdout, "hi there\n");
}

#[test]
fn pwd_writes_cwd_to_stdout() {
    let mut shell = new_shell();
    let expected = format!("{}\n", shell.cwd);
    let (status, stdout, _) = run(Builtin::Pwd, &mut shell, &[]);
    assert_eq!(status, 0);
    assert_eq!(stdout, expected);
}

#[test]
fn break_inside_a_loop_sets_pending_control_flow() {
    let mut shell = new_shell();
    shell.loop_depth = 1;
    let (status, _, stderr) = run(Builtin::Break, &mut shell, &[]);
    assert_eq!(status, 0);
    assert!(stderr.is_empty());
    assert_eq!(shell.pending_control_flow, Some(ControlFlow::Break(1)));
}

#[test]
fn break_with_explicit_level() {
    let mut shell = new_shell();
    shell.loop_depth = 3;
    run(Builtin::Break, &mut shell, &["2".to_string()]);
    assert_eq!(shell.pending_control_flow, Some(ControlFlow::Break(2)));
}

#[test]
fn continue_inside_a_loop_sets_pending_control_flow() {
    let mut shell = new_shell();
    shell.loop_depth = 1;
    run(Builtin::Continue, &mut shell, &[]);
    assert_eq!(shell.pending_control_flow, Some(ControlFlow::Continue(1)));
}

#[test]
fn break_outside_any_loop_is_a_harmless_no_op() {
    let mut shell = new_shell();
    assert_eq!(shell.loop_depth, 0);
    let (status, _, stderr) = run(Builtin::Break, &mut shell, &[]);
    assert_eq!(status, 0);
    assert!(!stderr.is_empty());
    assert_eq!(shell.pending_control_flow, None);
}

#[test]
fn break_zero_is_out_of_range() {
    let mut shell = new_shell();
    shell.loop_depth = 1;
    let (status, _, stderr) = run(Builtin::Break, &mut shell, &["0".to_string()]);
    assert_eq!(status, 1);
    assert!(stderr.contains("out of range"));
    assert_eq!(shell.pending_control_flow, None);
}

#[test]
fn break_non_numeric_argument_is_out_of_range() {
    let mut shell = new_shell();
    shell.loop_depth = 1;
    let (status, _, stderr) = run(Builtin::Break, &mut shell, &["nope".to_string()]);
    assert_eq!(status, 1);
    assert!(stderr.contains("out of range"));
}

#[test]
fn local_outside_a_function_errors_and_has_no_effect() {
    let mut shell = new_shell();
    let (status, _, stderr) = run(Builtin::Local, &mut shell, &["X=1".to_string()]);
    assert_eq!(status, 1);
    assert!(stderr.contains("can only be used in a function"));
    assert_eq!(shell.get_var("X"), None);
}

#[test]
fn local_with_value_shadows_and_is_recorded_for_restoration() {
    let mut shell = new_shell();
    shell
        .shell_vars
        .insert("X".to_string(), "outer".to_string());
    shell.push_local_frame();
    let (status, _, _) = run(Builtin::Local, &mut shell, &["X=inner".to_string()]);
    assert_eq!(status, 0);
    assert_eq!(shell.get_var("X"), Some("inner"));
    shell.pop_local_frame();
    assert_eq!(shell.get_var("X"), Some("outer"));
}

#[test]
fn bare_local_with_no_value_makes_the_name_genuinely_unset() {
    let mut shell = new_shell();
    shell
        .shell_vars
        .insert("X".to_string(), "outer".to_string());
    shell.push_local_frame();
    run(Builtin::Local, &mut shell, &["X".to_string()]);
    assert_eq!(shell.get_var("X"), None);
    shell.pop_local_frame();
    assert_eq!(shell.get_var("X"), Some("outer"));
}

#[test]
fn local_of_an_already_exported_variable_stays_exported() {
    let mut shell = new_shell();
    shell.env_vars.insert("X".to_string(), "outer".to_string());
    shell.push_local_frame();
    run(Builtin::Local, &mut shell, &["X=inner".to_string()]);
    assert!(shell.env_vars.contains_key("X"));
    assert_eq!(shell.get_var("X"), Some("inner"));
}

#[test]
fn local_invalid_identifier_errors_but_still_processes_later_arguments() {
    let mut shell = new_shell();
    shell.push_local_frame();
    let (status, _, stderr) = run(Builtin::Local, &mut shell, &["1x=2".to_string(), "y=3".to_string()]);
    assert_eq!(status, 1);
    assert!(stderr.contains("not a valid identifier"));
    assert_eq!(shell.get_var("y"), Some("3"));
}

#[test]
fn return_outside_a_function_errors_without_setting_pending_control_flow() {
    let mut shell = new_shell();
    let (status, _, stderr) = run(Builtin::Return, &mut shell, &[]);
    assert_eq!(status, 2);
    assert!(stderr.contains("can only `return'"));
    assert_eq!(shell.pending_control_flow, None);
}

#[test]
fn return_with_explicit_code_sets_pending_control_flow() {
    let mut shell = new_shell();
    shell.push_local_frame();
    run(Builtin::Return, &mut shell, &["5".to_string()]);
    assert_eq!(shell.pending_control_flow, Some(ControlFlow::Return(5)));
}

#[test]
fn return_with_no_argument_uses_the_last_status() {
    let mut shell = new_shell();
    shell.last_status = 7;
    shell.push_local_frame();
    run(Builtin::Return, &mut shell, &[]);
    assert_eq!(shell.pending_control_flow, Some(ControlFlow::Return(7)));
}

#[test]
fn return_wraps_an_out_of_range_code_into_a_byte_like_bash_does() {
    let mut shell = new_shell();
    shell.push_local_frame();
    run(Builtin::Return, &mut shell, &["300".to_string()]);
    assert_eq!(shell.pending_control_flow, Some(ControlFlow::Return(44)));

    let mut shell = new_shell();
    shell.push_local_frame();
    run(Builtin::Return, &mut shell, &["-1".to_string()]);
    assert_eq!(shell.pending_control_flow, Some(ControlFlow::Return(255)));
}

#[test]
fn return_non_numeric_argument_still_stops_the_call() {
    let mut shell = new_shell();
    shell.push_local_frame();
    let (status, _, stderr) = run(Builtin::Return, &mut shell, &["abc".to_string()]);
    assert_eq!(status, 2);
    assert!(stderr.contains("numeric argument required"));
    assert_eq!(shell.pending_control_flow, Some(ControlFlow::Return(2)));
}

#[test]
fn set_dash_dash_replaces_positional_parameters() {
    let mut shell = new_shell();
    shell.positional_params = vec!["old".to_string()];
    let (status, _, _) = run(
        Builtin::SetParams,
        &mut shell,
        &["--".to_string(), "a".to_string(), "b".to_string()],
    );
    assert_eq!(status, 0);
    assert_eq!(
        shell.positional_params,
        vec!["a".to_string(), "b".to_string()]
    );
}

#[test]
fn set_dash_dash_alone_clears_positional_parameters() {
    let mut shell = new_shell();
    shell.positional_params = vec!["old".to_string()];
    run(Builtin::SetParams, &mut shell, &["--".to_string()]);
    assert!(shell.positional_params.is_empty());
}

#[test]
fn set_without_dash_dash_is_reported_as_unsupported() {
    let mut shell = new_shell();
    let (status, _, stderr) = run(Builtin::SetParams, &mut shell, &["-e".to_string()]);
    assert_eq!(status, 1);
    assert!(!stderr.is_empty());
}

#[test]
fn shift_default_removes_one_positional_parameter() {
    let mut shell = new_shell();
    shell.positional_params = vec!["a".to_string(), "b".to_string(), "c".to_string()];
    let (status, _, _) = run(Builtin::Shift, &mut shell, &[]);
    assert_eq!(status, 0);
    assert_eq!(
        shell.positional_params,
        vec!["b".to_string(), "c".to_string()]
    );
}

#[test]
fn shift_n_removes_n_positional_parameters() {
    let mut shell = new_shell();
    shell.positional_params = vec!["a".to_string(), "b".to_string(), "c".to_string()];
    run(Builtin::Shift, &mut shell, &["2".to_string()]);
    assert_eq!(shell.positional_params, vec!["c".to_string()]);
}

#[test]
fn shift_zero_is_a_no_op() {
    let mut shell = new_shell();
    shell.positional_params = vec!["a".to_string()];
    let (status, _, _) = run(Builtin::Shift, &mut shell, &["0".to_string()]);
    assert_eq!(status, 0);
    assert_eq!(shell.positional_params, vec!["a".to_string()]);
}

#[test]
fn shift_beyond_available_params_errors_without_changing_them() {
    let mut shell = new_shell();
    shell.positional_params = vec!["a".to_string(), "b".to_string()];
    let (status, _, _) = run(Builtin::Shift, &mut shell, &["5".to_string()]);
    assert_eq!(status, 1);
    assert_eq!(
        shell.positional_params,
        vec!["a".to_string(), "b".to_string()]
    );
}

#[test]
fn shift_negative_count_errors() {
    let mut shell = new_shell();
    shell.positional_params = vec!["a".to_string()];
    let (status, _, stderr) = run(Builtin::Shift, &mut shell, &["-1".to_string()]);
    assert_eq!(status, 1);
    assert!(stderr.contains("out of range"));
}

#[test]
fn fg_without_job_control_is_a_clear_error() {
    let mut shell = new_shell();
    assert!(!shell.job_control_active);
    let (status, _, stderr) = run(Builtin::Fg, &mut shell, &[]);
    assert_eq!(status, 1);
    assert!(stderr.contains("no job control"));
}

#[test]
fn bg_without_job_control_is_a_clear_error() {
    let mut shell = new_shell();
    let (status, _, stderr) = run(Builtin::Bg, &mut shell, &[]);
    assert_eq!(status, 1);
    assert!(stderr.contains("no job control"));
}

#[test]
fn wait_on_an_unknown_pid_is_a_clear_error_without_blocking() {
    let mut shell = new_shell();
    let (status, _, stderr) = run(Builtin::Wait, &mut shell, &["999999".to_string()]);
    assert_eq!(status, 127);
    assert!(stderr.contains("not a child"));
}

#[test]
fn wait_with_a_non_numeric_argument_is_a_clear_error() {
    let mut shell = new_shell();
    let (status, _, stderr) = run(Builtin::Wait, &mut shell, &["not-a-pid".to_string()]);
    assert_eq!(status, 127);
    assert!(stderr.contains("must be process or job IDs"));
}

#[test]
fn wait_with_no_operands_and_no_background_jobs_is_an_immediate_no_op() {
    let mut shell = new_shell();
    let (status, _, _) = run(Builtin::Wait, &mut shell, &[]);
    assert_eq!(status, 0);
}

#[test]
fn jobs_with_an_empty_table_prints_nothing() {
    let mut shell = new_shell();
    let (status, stdout, _) = run(Builtin::Jobs, &mut shell, &[]);
    assert_eq!(status, 0);
    assert!(stdout.is_empty());
}

#[test]
fn trap_registers_a_command_and_lists_it() {
    let mut shell = new_shell();
    let (status, _, _) = run(
        Builtin::Trap,
        &mut shell,
        &["echo caught".to_string(), "USR1".to_string()],
    );
    assert_eq!(status, 0);
    let (status, stdout, _) = run(Builtin::Trap, &mut shell, &[]);
    assert_eq!(status, 0);
    assert!(stdout.contains("echo caught"));
}

#[test]
fn trap_dash_p_reports_nothing_for_an_untrapped_signal() {
    let mut shell = new_shell();
    let (status, stdout, _) = run(Builtin::Trap, &mut shell, &["-p".to_string(), "USR2".to_string()]);
    assert_eq!(status, 0);
    assert!(stdout.is_empty());
}

#[test]
fn trap_dash_p_reports_a_registered_trap() {
    let mut shell = new_shell();
    run(
        Builtin::Trap,
        &mut shell,
        &["echo hi".to_string(), "USR2".to_string()],
    );
    let (status, stdout, _) = run(Builtin::Trap, &mut shell, &["-p".to_string(), "USR2".to_string()]);
    assert_eq!(status, 0);
    assert!(stdout.contains("echo hi"));
}

#[test]
fn trap_with_an_unrecognized_signal_errors() {
    let mut shell = new_shell();
    let (status, _, stderr) = run(
        Builtin::Trap,
        &mut shell,
        &["echo hi".to_string(), "NOTASIGNAL".to_string()],
    );
    assert_eq!(status, 1);
    assert!(!stderr.is_empty());
}

#[test]
fn trap_exit_registers_the_exit_trap() {
    let mut shell = new_shell();
    run(
        Builtin::Trap,
        &mut shell,
        &["echo bye".to_string(), "EXIT".to_string()],
    );
    assert_eq!(shell.exit_trap(), Some("echo bye"));
}

//! The executor.

use conch::builtins::Ran;
use conch::exec::exec_command_list;
use conch::exec::state::{Action, Event, Exit, Next, Spawned};
use conch::parser::parse;
use conch::shell::{Builtin, ControlFlow, Shell};
use conch::text_map::TextMap;

fn new_shell() -> Shell {
    Shell::new("/work".to_string(), TextMap::new(), 4242)
}

#[derive(Clone, Copy)]
enum Hosted {
    Never,
    Break1,
    Break2,
    Break5,
    Continue1,
    Continue2,
    Continue3,
    Return5,
    LocalInner,
    LocalOuter,
}

const HOSTED: [Hosted; 10] = [
    Hosted::Never,
    Hosted::Break1,
    Hosted::Break2,
    Hosted::Break5,
    Hosted::Continue1,
    Hosted::Continue2,
    Hosted::Continue3,
    Hosted::Return5,
    Hosted::LocalInner,
    Hosted::LocalOuter,
];

fn hosted(which: Hosted) -> Builtin {
    Builtin::Hosted(which as u32)
}

fn declare_x(shell: &mut Shell, value: &str) {
    let previous = shell.capture_var("X");
    shell.record_local("X".to_string(), previous);
    shell.set_local("X", Some(value.to_string()));
}

fn run_hosted(number: u32, shell: &mut Shell) {
    let flow = match HOSTED[number as usize] {
        Hosted::Never => panic!("should not have been run"),
        Hosted::Break1 => ControlFlow::Break(1),
        Hosted::Break2 => ControlFlow::Break(2),
        Hosted::Break5 => ControlFlow::Break(5),
        Hosted::Continue1 => ControlFlow::Continue(1),
        Hosted::Continue2 => ControlFlow::Continue(2),
        Hosted::Continue3 => ControlFlow::Continue(3),
        Hosted::Return5 => ControlFlow::Return(5),
        Hosted::LocalInner => {
            declare_x(shell, "inner");
            return;
        }
        Hosted::LocalOuter => {
            declare_x(shell, "outer_local");
            return;
        }
    };
    shell.pending_control_flow = Some(flow);
}

fn run_program(name: &str, args: &[String]) -> Spawned {
    let (code, output) = match name {
        "true" => (0, String::new()),
        "false" => (1, String::new()),
        "echo" => (0, format!("{}\n", args.join(" "))),
        "[" => {
            let holds = match args[1].as_str() {
                "=" => args[0] == args[2],
                "!=" => args[0] != args[2],
                other => panic!("unknown operator {other}"),
            };
            (if holds { 0 } else { 1 }, String::new())
        }
        _ => return Spawned::NotStarted("No such file or directory".to_string()),
    };
    Spawned::Ended { how: Exit::Code(code), output: output.into_bytes() }
}

fn ran() -> Ran {
    Ran { status: 0, stdout: String::new(), stderr: String::new() }
}

fn perform(action: Action, shell: &mut Shell) -> Event {
    match action {
        Action::Spawn { name, args, .. } => Event::Spawned(run_program(&name, &args)),
        Action::DirectoryEntries => Event::DirectoryEntries(vec!["notes.txt".to_string()]),
        Action::Hosted { number, .. } => {
            run_hosted(number, shell);
            Event::HostedEnded(ran())
        }
        other => panic!("unexpected action: {other:?}"),
    }
}

fn run(input: &str, shell: &mut Shell) -> i32 {
    let mut machine = exec_command_list(&parse(input).unwrap());
    let mut event = Event::Go;
    loop {
        event = match machine.step(shell, event).next {
            Next::Continue => Event::Go,
            Next::Perform(action) => perform(action, shell),
            Next::Finished(status) => return status,
            other => panic!("unexpected step: {other:?}"),
        };
    }
}

#[test]
fn true_and_false_builtins_via_external_binaries() {
    let mut shell = new_shell();
    assert_eq!(run("true", &mut shell), 0);
    assert_eq!(run("false", &mut shell), 1);
}

#[test]
fn and_short_circuits_on_failure() {
    let mut shell = new_shell();
    shell.register_builtin("would_not_run".to_string(), hosted(Hosted::Never));
    assert_eq!(run("false && would_not_run", &mut shell), 1);
}

#[test]
fn or_runs_only_on_failure() {
    let mut shell = new_shell();
    assert_eq!(run("true || false", &mut shell), 0);
}

#[test]
fn bare_assignment_persists_in_shell_vars() {
    let mut shell = new_shell();
    run("FOO=bar", &mut shell);
    assert_eq!(shell.get_var("FOO"), Some("bar"));
}

#[test]
fn prefix_assignment_does_not_persist() {
    let mut shell = new_shell();
    run("FOO=temp true", &mut shell);
    assert_eq!(shell.get_var("FOO"), None);
}

#[test]
fn pipeline_pipes_output_between_external_commands() {
    let mut shell = new_shell();
    assert_eq!(run("echo hi | true", &mut shell), 0);
}

#[test]
fn if_runs_the_first_true_branch() {
    let mut shell = new_shell();
    assert_eq!(run("if true; then echo a; else echo b; fi", &mut shell), 0);
}

#[test]
fn if_falls_through_to_else() {
    let mut shell = new_shell();
    run("if false; then X=a; else X=b; fi", &mut shell);
    assert_eq!(shell.get_var("X"), Some("b"));
}

#[test]
fn if_with_no_matching_branch_and_no_else_is_status_zero() {
    let mut shell = new_shell();
    assert_eq!(run("if false; then echo a; fi", &mut shell), 0);
}

#[test]
fn case_runs_the_first_matching_arm_only() {
    let mut shell = new_shell();
    run(
        "X=b; case $X in a) Y=A;; b|c) Y=BC;; *) Y=other;; esac",
        &mut shell,
    );
    assert_eq!(shell.get_var("Y"), Some("BC"));
}

#[test]
fn case_with_no_matching_arm_is_status_zero() {
    let mut shell = new_shell();
    assert_eq!(run("case zzz in a) echo a;; esac", &mut shell), 0);
}

#[test]
fn for_loop_iterates_over_wordlist() {
    let mut shell = new_shell();
    run("for x in a b c; do Y=$x; done", &mut shell);
    assert_eq!(shell.get_var("Y"), Some("c"));
}

#[test]
fn while_loop_runs_until_condition_fails() {
    let mut shell = new_shell();
    run(
        "I=0; while [ \"$I\" != 3 ]; do I=$((I+1)); done",
        &mut shell,
    );
    assert_eq!(shell.get_var("I"), Some("3"));
}

#[test]
fn while_loop_exit_status_is_last_body_execution_not_zero() {
    let mut shell = new_shell();
    assert_eq!(
        run(
            "I=0; while [ \"$I\" != 2 ]; do I=$((I+1)); false; done",
            &mut shell
        ),
        1
    );
}

#[test]
fn while_loop_that_never_runs_its_body_is_status_zero() {
    let mut shell = new_shell();
    assert_eq!(run("while false; do false; done", &mut shell), 0);
}

#[test]
fn brace_group_leaks_variable_assignments() {
    let mut shell = new_shell();
    shell.shell_vars.insert("X".into(), "outer".into());
    run("{ X=inner; }", &mut shell);
    assert_eq!(shell.get_var("X"), Some("inner"));
}

fn shell_with_control_flow_builtins() -> Shell {
    let mut shell = new_shell();
    shell.register_builtin("tbreak".to_string(), hosted(Hosted::Break1));
    shell.register_builtin("tbreak2".to_string(), hosted(Hosted::Break2));
    shell.register_builtin("tbreak5".to_string(), hosted(Hosted::Break5));
    shell.register_builtin("tcontinue".to_string(), hosted(Hosted::Continue1));
    shell.register_builtin("tcontinue3".to_string(), hosted(Hosted::Continue3));
    shell
}

#[test]
fn break_stops_a_while_loop_immediately() {
    let mut shell = shell_with_control_flow_builtins();
    run("I=0; while true; do I=$((I+1)); tbreak; done", &mut shell);
    assert_eq!(shell.get_var("I"), Some("1"));
    assert_eq!(shell.pending_control_flow, None);
    assert_eq!(shell.loop_depth, 0);
}

#[test]
fn continue_skips_the_rest_of_the_current_iteration() {
    let mut shell = shell_with_control_flow_builtins();
    run(
        "for x in a b; do Y=$Y$x; tcontinue; Y=${Y}Z; done",
        &mut shell,
    );
    assert_eq!(shell.get_var("Y"), Some("ab"));
}

#[test]
fn nested_break_2_unwinds_both_loops() {
    let mut shell = shell_with_control_flow_builtins();
    run(
        "for i in 1 2; do for j in a b; do L=$L$i$j; tbreak2; done; done",
        &mut shell,
    );
    assert_eq!(shell.get_var("L"), Some("1a"));
    assert_eq!(shell.loop_depth, 0);
}

#[test]
fn nested_continue_targeting_outer_loop_via_explicit_level() {
    let mut shell = shell_with_control_flow_builtins();
    shell.register_builtin("tcontinue2".to_string(), hosted(Hosted::Continue2));
    run(
        "for i in 1 2; do L=$L\"(\"$i; for j in a b; do L=$L$j; tcontinue2; L=${L}Z; done; L=$L\")\"; done",
        &mut shell,
    );
    assert_eq!(shell.get_var("L"), Some("(1a(2a"));
}

#[test]
fn break_level_exceeding_nesting_depth_breaks_every_loop_and_resumes_after() {
    let mut shell = shell_with_control_flow_builtins();
    run(
        "for i in 1 2; do L=$L$i; tbreak5; done; L=${L}after",
        &mut shell,
    );
    assert_eq!(shell.get_var("L"), Some("1after"));
    assert_eq!(shell.pending_control_flow, None);
}

#[test]
fn continue_level_exceeding_nesting_depth_clamps_to_outermost_loop() {
    let mut shell = shell_with_control_flow_builtins();
    run(
        "for i in 1 2 3; do if [ \"$i\" = 2 ]; then tcontinue3; fi; L=$L$i; done",
        &mut shell,
    );
    assert_eq!(shell.get_var("L"), Some("13"));
}

#[test]
fn break_outside_any_loop_does_not_stop_later_commands() {
    let mut shell = shell_with_control_flow_builtins();
    run("tbreak; X=ran", &mut shell);
    assert_eq!(shell.get_var("X"), Some("ran"));
    assert_eq!(shell.pending_control_flow, None);
}

#[test]
fn defining_a_function_is_status_zero_and_does_not_run_it() {
    let mut shell = new_shell();
    assert_eq!(run("f() { X=ran; }", &mut shell), 0);
    assert_eq!(shell.get_var("X"), None);
}

#[test]
fn later_function_definition_replaces_the_earlier_one() {
    let mut shell = new_shell();
    run("f() { X=first; }; f() { X=second; }; f", &mut shell);
    assert_eq!(shell.get_var("X"), Some("second"));
}

#[test]
fn a_function_can_shadow_even_a_special_builtin() {
    let mut shell = new_shell();
    shell.register_special_builtin("myspecial".to_string(), hosted(Hosted::Never));
    run("myspecial() { X=shadowed; }; myspecial", &mut shell);
    assert_eq!(shell.get_var("X"), Some("shadowed"));
}

#[test]
fn function_call_gets_its_own_positional_parameters_and_restores_the_callers_afterward() {
    let mut shell = new_shell();
    shell.positional_params = vec!["top1".to_string(), "top2".to_string()];
    run("f() { INSIDE=\"$1:$2:$#\"; }; f a b c", &mut shell);
    assert_eq!(shell.get_var("INSIDE"), Some("a:b:3"));
    assert_eq!(
        shell.positional_params,
        vec!["top1".to_string(), "top2".to_string()]
    );
}

#[test]
fn function_call_falling_off_the_end_uses_the_last_commands_exit_status() {
    let mut shell = new_shell();
    assert_eq!(run("f() { true; false; }; f", &mut shell), 1);
}

#[test]
fn non_local_assignment_inside_a_function_mutates_the_global() {
    let mut shell = new_shell();
    shell
        .shell_vars
        .insert("X".to_string(), "outer".to_string());
    run("f() { X=changed; }; f", &mut shell);
    assert_eq!(shell.get_var("X"), Some("changed"));
}

#[test]
fn for_without_in_clause_iterates_positional_parameters() {
    let mut shell = new_shell();
    shell.positional_params = vec!["x".to_string(), "y".to_string(), "z".to_string()];
    run("for v; do L=$L$v; done", &mut shell);
    assert_eq!(shell.get_var("L"), Some("xyz"));
}

#[test]
fn return_stops_the_function_call_with_the_given_status() {
    let mut shell = new_shell();
    shell.register_builtin("treturn5".to_string(), hosted(Hosted::Return5));
    let status = run("f() { X=before; treturn5; X=after; }; f", &mut shell);
    assert_eq!(status, 5);
    assert_eq!(shell.get_var("X"), Some("before"));
    assert_eq!(shell.pending_control_flow, None);
}

#[test]
fn break_inside_a_function_does_not_escape_to_the_callers_own_loop() {
    let mut shell = shell_with_control_flow_builtins();
    run(
        "f() { tbreak; }; for i in 1 2 3; do L=$L$i; f; L=${L}Z; done",
        &mut shell,
    );
    assert_eq!(shell.get_var("L"), Some("1Z2Z3Z"));
    assert_eq!(shell.pending_control_flow, None);
}

#[test]
fn break_inside_a_functions_own_loop_stays_inside_the_function() {
    let mut shell = shell_with_control_flow_builtins();
    run(
        "f() { for j in a b c; do L=$L$j; tbreak; done; }; f",
        &mut shell,
    );
    assert_eq!(shell.get_var("L"), Some("a"));
}

#[test]
fn local_declaration_is_restored_once_the_function_call_returns() {
    let mut shell = new_shell();
    shell
        .shell_vars
        .insert("X".to_string(), "outer".to_string());
    shell.register_builtin("tlocal_inner".to_string(), hosted(Hosted::LocalInner));
    run("f() { tlocal_inner; INSIDE=$X; }; f", &mut shell);
    assert_eq!(shell.get_var("INSIDE"), Some("inner"));
    assert_eq!(shell.get_var("X"), Some("outer"));
}

#[test]
fn nested_call_bare_assignment_mutates_the_nearest_active_local_not_the_true_global() {
    let mut shell = new_shell();
    shell
        .shell_vars
        .insert("X".to_string(), "global".to_string());
    shell.register_builtin("tlocal_outer".to_string(), hosted(Hosted::LocalOuter));
    run(
        "inner() { X=set_by_inner; }; outer() { tlocal_outer; inner; AFTER_INNER=$X; }; outer",
        &mut shell,
    );
    assert_eq!(shell.get_var("AFTER_INNER"), Some("set_by_inner"));
    assert_eq!(shell.get_var("X"), Some("global"));
}

//! Runs of the executor in a world of its own.

use conch::ast::Command;
use conch::builtins::{register_all, resolve_signals, DirectoryChange, Ran};
use conch::exec::state::{Action, Event, Exit, Input, Machine, Next, Output, Spawned};
use conch::exec::{exec_program, run_trap_source};
use conch::jobs::{ChildStatus, JobState};
use conch::parser::parse;
use conch::shell::{Builtin, ForegroundInterrupt, Shell};
use conch::text_map::TextMap;
use conch::traps::TrapAction;

#[derive(Default)]
struct World {
    stdout: String,
    stderr: String,
    log: Vec<String>,
    files: Vec<(String, String)>,
    children: Vec<(i32, ChildStatus)>,
    foreground: Vec<ChildStatus>,
}

enum End {
    Finished(i32),
    Exit(i32),
}

fn new_shell() -> Shell {
    let mut shell = Shell::new("/work".to_string(), TextMap::new(), 4242);
    register_all(&mut shell);
    shell
}

impl World {
    fn program(&mut self, name: &str, args: &[String], input: Input, output: Output) -> Spawned {
        let given = match input {
            Input::Inherit => String::new(),
            Input::Data(data) => String::from_utf8(data).unwrap(),
            Input::File(target) => match self.files.iter().find(|f| f.0 == target) {
                Some(file) => file.1.clone(),
                None => return Spawned::NoInput("No such file".to_string()),
            },
        };
        let (how, written) = match name {
            "true" => (Exit::Code(0), String::new()),
            "false" => (Exit::Code(1), String::new()),
            "killed" => (Exit::Signal(9), String::new()),
            "interrupted" => (Exit::Signal(2), "partial".to_string()),
            "cat" => (Exit::Code(0), given),
            "print" => (Exit::Code(0), format!("{}\n", args.join(" "))),
            "lost" => return Spawned::NotWaited("gone".to_string()),
            _ => return Spawned::NotStarted("not found".to_string()),
        };
        match output {
            Output::Capture => {}
            Output::Inherit => self.stdout.push_str(&written),
            Output::File { target, append } => {
                if target == "/forbidden" {
                    return Spawned::NoOutput("denied".to_string());
                }
                self.write(target, append, &written);
                return Spawned::Ended { how, output: Vec::new() };
            }
        }
        Spawned::Ended { how, output: written.into_bytes() }
    }

    fn write(&mut self, target: String, append: bool, text: &str) {
        match self.files.iter_mut().find(|f| f.0 == target) {
            Some(file) if append => file.1.push_str(text),
            Some(file) => file.1 = text.to_string(),
            None => self.files.push((target, text.to_string())),
        }
    }

    fn perform(&mut self, action: Action) -> Event {
        match action {
            Action::CommandOutput { body, env } => {
                self.log.push(format!("sub {body} {}", env.get("__CONCH_PID").unwrap()));
                Event::CommandOutput(Ok(format!("<{body}>\n\n")))
            }
            Action::DirectoryEntries => {
                self.log.push("ls".to_string());
                Event::DirectoryEntries(vec!["b.c".to_string(), "a.c".to_string()])
            }
            Action::Spawn { name, args, env, input, output } => {
                let shown = env.get("V").map_or("", |v| v.as_str()).to_string();
                self.log.push(format!("{name} V={shown}"));
                Event::Spawned(self.program(&name, &args, input, output))
            }
            Action::Subshell { source, env } => {
                self.log.push(format!("({source}) {}", env.get("__CONCH_PID").unwrap()));
                Event::SubshellEnded(match source.trim() {
                    "fail" => Err("no process".to_string()),
                    "killed" => Ok(Exit::Signal(15)),
                    "interrupted" => Ok(Exit::Signal(2)),
                    _ => Ok(Exit::Code(3)),
                })
            }
            Action::WriteFile { target, append, data } => {
                if target == "/forbidden" {
                    return Event::Written(Err("denied".to_string()));
                }
                self.write(target, append, &String::from_utf8(data).unwrap());
                Event::Written(Ok(()))
            }
            Action::ChangeDirectory(target) => {
                Event::DirectoryChanged(DirectoryChange::Changed(target))
            }
            Action::ResumeForeground(id) => {
                self.log.push(format!("fg {id}"));
                Event::ForegroundChanged(if self.foreground.is_empty() {
                    Err("fg: gone".to_string())
                } else {
                    Ok(self.foreground.remove(0))
                })
            }
            Action::ResumeBackground(pgid) => {
                self.log.push(format!("cont {pgid}"));
                Event::BackgroundResumed(Ok(()))
            }
            Action::WaitForChild => Event::ChildChanged(if self.children.is_empty() {
                None
            } else {
                Some(self.children.remove(0))
            }),
            Action::ResolveSignals(specs) => Event::SignalsResolved(resolve_signals(&specs)),
            Action::SetDispositions(changes) => {
                for change in &changes {
                    self.log.push(format!("{} {:?}", change.signal, change.disposition));
                }
                Event::DispositionsSet(vec![true; changes.len()])
            }
            Action::Hosted { number, args } => Event::HostedEnded(Ran {
                status: number as i32,
                stdout: args.join("+"),
                stderr: "hosted\n".to_string(),
            }),
        }
    }

    fn run(&mut self, mut machine: Machine, shell: &mut Shell) -> End {
        let mut event = Event::Go;
        loop {
            let outcome = machine.step(shell, event);
            self.stdout.push_str(&String::from_utf8(outcome.stdout).unwrap());
            self.stderr.push_str(&outcome.stderr);
            event = match outcome.next {
                Next::Continue => Event::Go,
                Next::Perform(action) => self.perform(action),
                Next::Finished(status) => return End::Finished(status),
                Next::Exit(code) => return End::Exit(code),
                Next::Mismatch => panic!("mismatch"),
            };
        }
    }

    fn program_text(&mut self, source: &str, shell: &mut Shell) -> i32 {
        match self.run(exec_program(&parse(source).unwrap()), shell) {
            End::Finished(status) => status,
            End::Exit(code) => panic!("exit {code}"),
        }
    }
}

fn run(source: &str) -> (i32, World, Shell) {
    let mut shell = new_shell();
    let mut world = World::default();
    let status = world.program_text(source, &mut shell);
    (status, world, shell)
}

#[test]
fn output_goes_from_one_command_of_a_pipeline_to_the_next() {
    let (status, world, _) = run("echo hi | cat | cat");
    assert_eq!((status, world.stdout.as_str()), (0, "hi\n"));
}

#[test]
fn a_pipeline_has_the_status_of_its_last_command() {
    assert_eq!(run("false | true").0, 0);
    assert_eq!(run("true | false").0, 1);
}

#[test]
fn and_or_lists_skip_what_does_not_apply() {
    let (status, world, _) = run("false && echo a || echo b && echo c; true || echo d");
    assert_eq!((status, world.stdout.as_str()), (0, "b\nc\n"));
}

#[test]
fn redirections_read_and_write_files() {
    let (_, world, _) = run("echo a > f; echo b >> f; cat < f > g; cat < f");
    assert_eq!(world.stdout, "a\nb\n");
    assert_eq!(
        world.files,
        vec![
            ("f".to_string(), "a\nb\n".to_string()),
            ("g".to_string(), "a\nb\n".to_string())
        ]
    );
}

#[test]
fn the_last_redirection_of_a_descriptor_counts() {
    let (_, world, _) = run("print x > first > second 2> third");
    assert_eq!(world.files, vec![("second".to_string(), "x\n".to_string())]);
}

#[test]
fn programs_that_cannot_be_run_are_reported() {
    let cases = [
        ("nosuch", 127, "conch: nosuch: not found\n"),
        ("cat < missing", 1, "conch: missing: No such file\n"),
        ("print x > /forbidden", 1, "conch: /forbidden: denied\n"),
        ("echo x > /forbidden", 1, "conch: /forbidden: denied\n"),
        ("lost", 1, "conch: lost: gone\n"),
        ("killed", 137, ""),
        ("(fail)", 1, "conch: subshell: no process\n"),
        ("(killed)", 143, ""),
        ("(anything)", 3, ""),
    ];
    for (source, status, stderr) in cases {
        let (found, world, _) = run(source);
        assert_eq!((found, world.stderr.as_str()), (status, stderr), "{source}");
    }
}

#[test]
fn redirections_of_compound_commands_and_calls_are_refused() {
    let (status, world, _) = run("{ echo a; } > f");
    assert_eq!(status, 1);
    assert!(world.stderr.contains("a compound command's own trailing redirect"));
    let (status, world, _) = run("f() { echo a; }; f > g");
    assert_eq!(status, 1);
    assert!(world.stderr.contains("a function call's own output redirect"));
}

#[test]
fn a_subshell_gets_the_number_of_the_shell() {
    let (_, world, _) = run("(x); echo $(y)");
    assert_eq!(world.log, vec!["(x) 4242".to_string(), "sub y 4242".to_string()]);
    assert_eq!(world.stdout, "<y>\n");
}

#[test]
fn every_command_substitution_runs_once() {
    let (_, world, shell) = run("x=$(a)$(b) echo $(c) *.c ${y:=$(d)}");
    let subs: Vec<&str> =
        world.log.iter().map(|l| l.as_str()).filter(|l| l.starts_with("sub")).collect();
    assert_eq!(subs, vec!["sub a 4242", "sub b 4242", "sub c 4242", "sub d 4242"]);
    assert_eq!(world.stdout, "<c> a.c b.c <d>\n");
    assert_eq!(shell.get_var("y"), Some("<d>"));
    assert_eq!(shell.get_var("x"), None);
}

#[test]
fn assignments_in_front_of_a_command_are_undone() {
    let (_, world, shell) =
        run("export V=old; V=new print x; V=one V=two echo y; f() { print z; }; V=call f; print w");
    assert_eq!(
        world.log,
        vec!["print V=new", "print V=call", "print V=old"]
    );
    assert_eq!(shell.get_var("V"), Some("old"));
    let (_, _, shell) = run("A=1 A=2 echo y");
    assert_eq!(shell.get_var("A"), None);
}

#[test]
fn a_command_keeps_what_was_not_assigned_in_front_of_it() {
    let (_, _, shell) = run("export V=old W=a; V=new export V=inner W=b");
    assert_eq!(shell.get_var("V"), Some("old"));
    assert_eq!(shell.get_var("W"), Some("b"));
    let (_, _, shell) = run("export V=old W=a; f() { export V=inner W=c; }; V=one V=two f");
    assert_eq!(shell.get_var("V"), Some("old"));
    assert_eq!(shell.get_var("W"), Some("c"));
    let (_, _, shell) = run("N=1 export N=2 M=3");
    assert_eq!(shell.get_var("N"), None);
    assert_eq!(shell.get_var("M"), Some("3"));
    let (_, _, shell) = run("export V=old; V=new unset V");
    assert_eq!(shell.get_var("V"), Some("old"));
}

#[test]
fn loops_stop_and_go_on_as_told() {
    let (_, world, shell) = run(
        "for i in 1 2 3; do for j in a b c; do case $j in b) continue 2;; esac; echo $i$j; done; done",
    );
    assert_eq!(world.stdout, "1a\n2a\n3a\n");
    assert_eq!(shell.loop_depth, 0);
    let (_, world, _) = run("for i in 1 2; do for j in a b; do echo $i$j; break 2; done; done");
    assert_eq!(world.stdout, "1a\n");
    let (_, world, _) = run("n=0; until [ $n ]; do break; done; while true; do n=$((n+1)); case $n in 3) break;; esac; done; echo $n");
    assert_eq!(world.stdout, "3\n");
}

#[test]
fn return_leaves_loops_and_its_call_only() {
    let (status, world, shell) =
        run("f() { for i in 1 2; do while true; do return 7; done; done; echo no; }; f; echo $?");
    assert_eq!((status, world.stdout.as_str()), (0, "7\n"));
    assert_eq!(shell.function_depth, 0);
    assert_eq!(shell.loop_depth, 0);
}

#[test]
fn a_break_that_leaves_a_call_is_dropped() {
    let (_, world, _) = run("f() { break; }; for i in 1 2; do f; echo $i; done");
    assert_eq!(world.stdout, "1\n2\n");
    assert!(world.stderr.contains("break: only meaningful"));
}

#[test]
fn functions_hide_builtins() {
    let (_, world, _) = run("echo() { print mine; }; echo theirs");
    assert_eq!(world.stdout, "mine\n");
}

#[test]
fn locals_are_seen_by_callees_and_end_with_the_call() {
    let (_, world, _) =
        run("x=g; inner() { echo $x; x=i; }; outer() { local x=o; inner; echo $x; }; outer; echo $x");
    assert_eq!(world.stdout, "o\ni\ng\n");
}

#[test]
fn a_required_parameter_ends_a_script_but_not_a_session() {
    let mut shell = new_shell();
    let mut world = World::default();
    let list = parse("echo ${x:?gone}; echo after").unwrap();
    assert!(matches!(world.run(exec_program(&list), &mut shell), End::Exit(1)));
    assert_eq!(world.stderr, "conch: x: gone\n");
    assert_eq!(world.stdout, "");
    let mut shell = new_shell();
    shell.is_interactive = true;
    let mut world = World::default();
    assert!(matches!(world.run(exec_program(&list), &mut shell), End::Finished(0)));
    assert_eq!(world.stdout, "after\n");
}

#[test]
fn other_expansion_errors_fail_only_the_command() {
    let (status, world, _) = run("echo $((1/0)); echo $?");
    assert_eq!((status, world.stdout.as_str()), (0, "1\n"));
    assert_eq!(world.stderr, "conch: division by 0\n");
}

#[test]
fn exit_runs_its_trap_once() {
    let mut shell = new_shell();
    let mut world = World::default();
    let list = parse("trap 'echo bye; exit 9' EXIT; exit 4; echo never").unwrap();
    assert!(matches!(world.run(exec_program(&list), &mut shell), End::Exit(9)));
    assert_eq!(world.stdout, "bye\n");
    let mut shell = new_shell();
    shell.trap_set_by_name("EXIT", TrapAction::Command("if".to_string())).unwrap();
    let mut world = World::default();
    let list = parse("exit").unwrap();
    assert!(matches!(world.run(exec_program(&list), &mut shell), End::Exit(0)));
    assert_eq!(world.stderr, "conch: trap: unexpected end of input, expected 'then'\n");
}

#[test]
fn traps_are_set_listed_and_described() {
    let (status, world, shell) =
        run("trap 'echo u' USR1 2; trap '' HUP; trap - INT; trap; trap -p HUP EXIT nope");
    assert_eq!(status, 1);
    assert_eq!(
        world.stdout,
        "trap -- '' SIGHUP\ntrap -- 'echo u' SIGUSR1\ntrap -- '' SIGHUP\n"
    );
    assert_eq!(world.stderr, "trap: nope: invalid signal specification\n");
    assert_eq!(
        world.log,
        vec!["SIGUSR1 Handle", "SIGINT Handle", "SIGHUP Ignore", "SIGINT Default"]
    );
    assert_eq!(shell.traps.handled(), &vec!["SIGUSR1".to_string()]);
    let (status, world, _) = run("trap x");
    assert_eq!((status, world.stderr.as_str()), (2, "trap: usage: trap [-p] [action] [signal...]\n"));
}

#[test]
fn the_command_of_a_trap_is_a_program() {
    let mut shell = new_shell();
    let mut world = World::default();
    let machine = run_trap_source("echo caught; break").unwrap();
    assert!(matches!(world.run(machine, &mut shell), End::Finished(0)));
    assert_eq!(world.stdout, "caught\n");
    assert_eq!(
        run_trap_source("(").unwrap_err(),
        "conch: trap: unexpected end of input, expected ')'\n"
    );
}

#[test]
fn cd_and_pwd_follow_the_directory() {
    let (status, world, shell) = run("cd /tmp; pwd; cd; cd /x | cat");
    assert_eq!((status, world.stdout.as_str()), (0, "/tmp\n"));
    assert_eq!(world.stderr, "cd: HOME not set\n");
    assert_eq!(shell.cwd, "/x");
}

#[test]
fn wait_waits_for_its_children() {
    let mut shell = new_shell();
    shell.job_table.register(10, 10, "a".to_string());
    shell.job_table.register(20, 20, "b".to_string());
    let mut world = World {
        children: vec![(20, ChildStatus::Exited(3)), (10, ChildStatus::Signaled(15))],
        ..World::default()
    };
    assert_eq!(world.program_text("wait 10 20", &mut shell), 3);
    assert_eq!(world.program_text("wait 10", &mut shell), 143);
    assert_eq!(world.program_text("wait 30", &mut shell), 127);
    assert_eq!(world.stderr, "wait: pid 30 is not a child of this shell\n");
    assert_eq!(world.program_text("wait", &mut shell), 0);
    assert_eq!(shell.job_table.get(1).unwrap().state, JobState::Signaled(15));
}

#[test]
fn wait_gives_up_when_no_child_is_left() {
    let mut shell = new_shell();
    shell.job_table.register(10, 10, "a".to_string());
    let mut world = World::default();
    assert_eq!(world.program_text("wait 10", &mut shell), 127);
    assert_eq!(world.program_text("wait", &mut shell), 0);
}

#[test]
fn jobs_are_listed_resumed_and_forgotten() {
    let mut shell = new_shell();
    shell.job_control_active = true;
    shell.job_table.register(10, 10, "sleep 1".to_string());
    shell.job_table.register_stopped(20, 21, "vi x".to_string());
    shell.job_table.apply_wait_status(10, ChildStatus::Exited(0));
    let mut world = World {
        foreground: vec![ChildStatus::Continued, ChildStatus::Stopped(20)],
        ..World::default()
    };
    assert_eq!(world.program_text("jobs; jobs -p; bg; fg %vi; echo never", &mut shell), 148);
    assert_eq!(
        world.stdout,
        "[1]  Done        sleep 1\n[2]  Stopped     vi x\n21\n[2]  vi x &\n"
    );
    assert_eq!(world.log, vec!["cont 20", "fg 2", "fg 2"]);
    assert_eq!(shell.job_table.get(2).unwrap().state, JobState::Stopped);
    world.foreground = vec![ChildStatus::Exited(5)];
    assert_eq!(world.program_text("fg", &mut shell), 5);
    assert!(shell.job_table.get(2).is_none());
    assert_eq!(world.program_text("fg %nope", &mut shell), 1);
    assert_eq!(world.stderr, "fg: %nope: no such job\n");
}

#[test]
fn news_of_jobs_is_told_once() {
    let mut shell = new_shell();
    shell.job_table.register(10, 10, "sleep 1".to_string());
    shell.job_table.register(20, 20, "sleep 2".to_string());
    shell.job_table.apply_wait_status(20, ChildStatus::Exited(4));
    assert_eq!(
        conch::builtins::report_finished_jobs(&mut shell),
        "[2]+  Done(non-zero)          sleep 2\n"
    );
    assert_eq!(conch::builtins::report_finished_jobs(&mut shell), "");
    assert!(shell.job_table.get(2).is_none());
    assert!(shell.job_table.get(1).is_some());
}

#[test]
fn hosted_commands_are_run_by_the_host() {
    let mut shell = new_shell();
    shell.register_builtin("mine".to_string(), Builtin::Hosted(6));
    let mut world = World::default();
    assert_eq!(world.program_text("mine a b | cat; mine c", &mut shell), 6);
    assert_eq!(world.stdout, "a+bc");
    assert_eq!(world.stderr, "hosted\nhosted\n");
    assert_eq!(shell.take_builtin("mine"), Some(Builtin::Hosted(6)));
    assert_eq!(shell.builtin("mine"), None);
}

#[test]
fn a_report_that_does_not_belong_changes_nothing() {
    let mut shell = new_shell();
    let mut machine = exec_program(&parse("x=1").unwrap());
    assert!(matches!(machine.step(&mut shell, Event::Written(Ok(()))).next, Next::Mismatch));
    assert!(matches!(machine.step(&mut shell, Event::Go).next, Next::Continue));
}

#[test]
fn a_definition_keeps_its_body() {
    let (_, _, shell) = run("f() { echo a; }; g() (b)");
    let list = parse("f() { echo a; }").unwrap();
    let Command::Function(f) = &list.items[0].and_or.first.commands[0] else { unreachable!() };
    assert_eq!(shell.functions.get("f"), Some(f));
    assert!(shell.functions.contains_key("g"));
}

#[test]
fn an_empty_program_keeps_the_status() {
    let mut shell = new_shell();
    shell.last_status = 8;
    let mut world = World::default();
    assert_eq!(world.program_text("", &mut shell), 8);
    assert_eq!(world.program_text("$nothing", &mut shell), 0);
}

#[test]
fn signals_are_acted_on_between_commands() {
    let mut shell = new_shell();
    let mut machine = exec_program(&parse("x=1; y=2 && z=3").unwrap());
    let mut places = 0;
    loop {
        if machine.is_between_commands() {
            places += 1;
        }
        if let Next::Finished(_) = machine.step(&mut shell, Event::Go).next {
            break;
        }
    }
    assert_eq!(places, 2);
}

#[test]
fn an_interrupted_program_ends_everything_that_is_under_way() {
    for source in [
        "interrupted; echo never",
        "interrupted || echo never",
        "interrupted | cat; echo never",
        "if interrupted; then echo a; else echo never; fi; echo never",
        "for i in 1 2; do while true; do (interrupted); echo never; done; done; echo never",
        "f() { local x=1; V=2 interrupted; echo never; }; f a b; echo never",
    ] {
        let mut shell = new_shell();
        let mut world = World::default();
        assert_eq!(world.program_text(source, &mut shell), 130, "{source}");
        assert!(!world.stdout.contains("never"), "{source}");
        assert_eq!(shell.foreground_interrupt, None);
        assert_eq!((shell.loop_depth, shell.function_depth), (0, 0));
        assert_eq!(shell.get_var("x"), None);
        assert!(shell.positional_params.is_empty());
        assert_eq!(shell.last_status, 130);
    }
    assert_eq!(run("killed; echo $?").1.stdout, "137\n");
}

#[test]
fn a_list_leaves_its_interrupt_to_the_caller() {
    let mut shell = new_shell();
    let mut world = World::default();
    let machine = conch::exec::exec_command_list(&parse("interrupted; echo never").unwrap());
    assert!(matches!(world.run(machine, &mut shell), End::Finished(130)));
    assert_eq!(shell.foreground_interrupt, Some(ForegroundInterrupt::Interrupted));
}

#[test]
fn a_resumed_job_that_is_interrupted_is_gone() {
    let mut shell = new_shell();
    shell.job_control_active = true;
    shell.job_table.register_stopped(10, 10, "a".to_string());
    let mut world =
        World { foreground: vec![ChildStatus::Signaled(2)], ..World::default() };
    assert_eq!(world.program_text("fg; echo never", &mut shell), 130);
    assert_eq!(world.stdout, "");
    assert!(shell.job_table.get(1).is_none());
    shell.job_table.register_stopped(20, 20, "b".to_string());
    world.foreground = vec![ChildStatus::Signaled(15)];
    assert_eq!(world.program_text("fg; echo $?", &mut shell), 0);
    assert_eq!(world.stdout, "143\n");
    shell.job_table.register_stopped(30, 30, "c".to_string());
    assert_eq!(world.program_text("fg", &mut shell), 1);
    assert_eq!(world.stderr, "fg: gone\n");
}

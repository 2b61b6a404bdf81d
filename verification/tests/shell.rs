//! The state of the shell.

use conch::shell::{Builtin, Shell};
use conch::text_map::TextMap;

fn new_shell() -> Shell {
    Shell::new("/work".to_string(), TextMap::new(), 4242)
}

#[test]
fn register_and_look_up_builtin() {
    let mut shell = new_shell();
    shell.register_builtin("noop".to_string(), Builtin::Hosted(0));
    assert!(shell.builtin("noop").is_some());
    assert!(shell.builtin("missing").is_none());
}

#[test]
fn env_var_takes_precedence_over_shell_var() {
    let mut shell = new_shell();
    shell
        .shell_vars
        .insert("FOO".to_string(), "shell".to_string());
    shell.env_vars.insert("FOO".to_string(), "env".to_string());
    assert_eq!(shell.get_var("FOO"), Some("env"));
}

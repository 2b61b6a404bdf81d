//! Word expansion.

use conch::ast::Command;
use conch::expand::{
    expand_word_fields, expand_word_single, Answers, ExpandError, Request, Stop, Used,
};
use conch::parser::parse;
use conch::shell::Shell;
use conch::text_map::TextMap;
use conch::token::Word;

fn new_shell() -> Shell {
    Shell::new("/work".to_string(), TextMap::new(), 4242)
}

fn name_word(input: &str) -> Word {
    let list = parse(input).unwrap();
    let Command::Simple(cmd) = &list.items[0].and_or.first.commands[0] else {
        unreachable!()
    };
    cmd.name.clone().unwrap()
}

fn fields_in(input: &str, shell: &mut Shell, entries: &[&str]) -> Vec<String> {
    let mut answers = Answers::new();
    loop {
        let mut used = Used::new();
        match expand_word_fields(&name_word(input), shell, &answers, &mut used) {
            Ok(fields) => return fields,
            Err(Stop::Needs(Request::DirectoryEntries)) => answers
                .listings
                .push(entries.iter().map(|e| e.to_string()).collect()),
            Err(other) => panic!("unexpected stop: {other:?}"),
        }
    }
}

fn fields(input: &str, shell: &mut Shell) -> Vec<String> {
    fields_in(input, shell, &[])
}

fn expand_single(input: &str, shell: &mut Shell) -> Result<String, Stop> {
    expand_word_single(&name_word(input), shell, &Answers::new(), &mut Used::new())
}

fn single(input: &str, shell: &mut Shell) -> String {
    expand_single(input, shell).unwrap()
}

fn single_err(input: &str, shell: &mut Shell) -> ExpandError {
    match expand_single(input, shell) {
        Err(Stop::Failed(err)) => err,
        other => panic!("expected a failure, got {other:?}"),
    }
}

#[test]
fn literal_word_is_one_field() {
    let mut shell = new_shell();
    assert_eq!(fields("hello", &mut shell), vec!["hello"]);
}

#[test]
fn single_quoted_is_never_split() {
    let mut shell = new_shell();
    shell.env_vars.insert("X".into(), "irrelevant".into());
    assert_eq!(single("'$HOME'", &mut shell), "$HOME");
}

#[test]
fn unset_variable_expands_to_empty() {
    let mut shell = new_shell();
    assert_eq!(single("$NO_SUCH_VAR", &mut shell), "");
}

#[test]
fn unquoted_expansion_splits_on_default_ifs() {
    let mut shell = new_shell();
    shell.env_vars.insert("X".into(), "a b  c".into());
    assert_eq!(fields("$X", &mut shell), vec!["a", "b", "c"]);
}

#[test]
fn quoted_expansion_does_not_split() {
    let mut shell = new_shell();
    shell.env_vars.insert("X".into(), "a b c".into());
    assert_eq!(fields("\"$X\"", &mut shell), vec!["a b c"]);
}

#[test]
fn empty_unquoted_expansion_produces_zero_fields() {
    let mut shell = new_shell();
    assert_eq!(fields("$NO_SUCH_VAR", &mut shell), Vec::<String>::new());
}

#[test]
fn custom_ifs_delimiter_splits_on_empty_fields_too() {
    let mut shell = new_shell();
    shell.env_vars.insert("IFS".into(), ",".into());
    shell.env_vars.insert("X".into(), "a,,b".into());
    assert_eq!(fields("$X", &mut shell), vec!["a", "", "b"]);
}

#[test]
fn quoted_glob_metacharacter_is_literal() {
    let mut shell = new_shell();
    assert_eq!(single("'*'", &mut shell), "*");
}

#[test]
fn glob_matches_files_in_cwd() {
    let mut shell = new_shell();
    let mut result = fields_in("*.txt", &mut shell, &["a.txt", "b.txt", "c.rs"]);
    result.sort();
    assert_eq!(result, vec!["a.txt", "b.txt"]);
}

#[test]
fn glob_with_no_matches_stays_literal() {
    let mut shell = new_shell();
    assert_eq!(fields_in("*.nonexistent", &mut shell, &[]), vec!["*.nonexistent"]);
}

#[test]
fn glob_skips_dotfiles_by_default() {
    let mut shell = new_shell();
    assert_eq!(fields_in("*", &mut shell, &[".hidden", "visible"]), vec!["visible"]);
}

#[test]
fn tilde_expands_to_home() {
    let mut shell = new_shell();
    shell.env_vars.insert("HOME".into(), "/home/conch".into());
    assert_eq!(single("~", &mut shell), "/home/conch");
    assert_eq!(single("~/foo", &mut shell), "/home/conch/foo");
}

#[test]
fn bracket_expression_matches_char_class() {
    let mut shell = new_shell();
    let mut result = fields_in("a[0-9]", &mut shell, &["a1", "a2", "ax"]);
    result.sort();
    assert_eq!(result, vec!["a1", "a2"]);
}

#[test]
fn length_of_set_and_unset_parameter() {
    let mut shell = new_shell();
    shell.env_vars.insert("X".into(), "hello".into());
    assert_eq!(single("${#X}", &mut shell), "5");
    assert_eq!(single("${#NOPE}", &mut shell), "0");
}

#[test]
fn use_default_colon_form_triggers_on_null_too() {
    let mut shell = new_shell();
    shell.env_vars.insert("X".into(), String::new());
    assert_eq!(single("${X:-fallback}", &mut shell), "fallback");
    assert_eq!(single("${X-fallback}", &mut shell), "");
}

#[test]
fn use_default_non_colon_form_ignores_null() {
    let mut shell = new_shell();
    shell.env_vars.insert("X".into(), String::new());
    assert_eq!(single("${X-fallback}", &mut shell), "");
    shell.env_vars.remove("X");
    assert_eq!(single("${X-fallback}", &mut shell), "fallback");
}

#[test]
fn assign_default_persists_to_shell_vars() {
    let mut shell = new_shell();
    assert_eq!(single("${X:=assigned}", &mut shell), "assigned");
    assert_eq!(shell.get_var("X"), Some("assigned"));
}

#[test]
fn assign_default_to_special_parameter_errors() {
    let mut shell = new_shell();
    assert!(matches!(
        single_err("${1:=x}", &mut shell),
        ExpandError::CannotAssign(_)
    ));
}

#[test]
fn error_if_unset_uses_posix_default_message() {
    let mut shell = new_shell();
    let err = single_err("${X:?}", &mut shell);
    assert_eq!(
        err,
        ExpandError::ParameterNullOrUnset("X: parameter null or not set".into())
    );
}

#[test]
fn error_if_unset_uses_custom_message() {
    let mut shell = new_shell();
    let err = single_err("${X:?required}", &mut shell);
    assert_eq!(err, ExpandError::ParameterNullOrUnset("X: required".into()));
}

#[test]
fn error_if_unset_does_not_trigger_when_set() {
    let mut shell = new_shell();
    shell.env_vars.insert("X".into(), "hi".into());
    assert_eq!(single("${X:?required}", &mut shell), "hi");
}

#[test]
fn use_alternative_only_when_set_and_non_null() {
    let mut shell = new_shell();
    assert_eq!(single("${X:+alt}", &mut shell), "");
    shell.env_vars.insert("X".into(), "set".into());
    assert_eq!(single("${X:+alt}", &mut shell), "alt");
}

#[test]
fn remove_shortest_and_longest_prefix() {
    let mut shell = new_shell();
    shell.env_vars.insert("X".into(), "a/b/c".into());
    assert_eq!(single("${X#*/}", &mut shell), "b/c");
    assert_eq!(single("${X##*/}", &mut shell), "c");
}

#[test]
fn remove_shortest_and_longest_suffix() {
    let mut shell = new_shell();
    shell.env_vars.insert("X".into(), "a/b/c".into());
    assert_eq!(single("${X%/*}", &mut shell), "a/b");
    assert_eq!(single("${X%%/*}", &mut shell), "a");
}

#[test]
fn quoted_glob_metacharacter_in_pattern_operand_is_literal() {
    let mut shell = new_shell();
    shell.env_vars.insert("V".into(), "a*c".into());
    assert_eq!(single(r#"${V#a"*"}"#, &mut shell), "c");
    assert_eq!(single("${V#a*}", &mut shell), "*c");
}

#[test]
fn default_word_single_quote_unquoted_vs_double_quoted_context() {
    let mut shell = new_shell();
    assert_eq!(single("${X:-'a b'}", &mut shell), "a b");
    assert_eq!(single("\"${X:-'a b'}\"", &mut shell), "'a b'");
}

#[test]
fn arithmetic_basic_precedence() {
    let mut shell = new_shell();
    assert_eq!(single("$((1 + 2 * 3))", &mut shell), "7");
}

#[test]
fn arithmetic_variable_reference_without_dollar() {
    let mut shell = new_shell();
    shell.env_vars.insert("X".into(), "5".into());
    assert_eq!(single("$((X + 1))", &mut shell), "6");
    assert_eq!(single("$(($X + 1))", &mut shell), "6");
}

#[test]
fn arithmetic_command_substitution_splices_text_not_a_single_operand() {
    let mut shell = new_shell();
    shell.env_vars.insert("X".into(), "1+2".into());
    assert_eq!(single("$(($X * 3))", &mut shell), "7");
}

#[test]
fn arithmetic_bare_identifier_recursively_evaluates_its_value() {
    let mut shell = new_shell();
    shell.env_vars.insert("X".into(), "1+2".into());
    assert_eq!(single("$((X*3))", &mut shell), "9");
}

#[test]
fn arithmetic_assignment_persists_to_shell_vars() {
    let mut shell = new_shell();
    assert_eq!(single("$((X = 5))", &mut shell), "5");
    assert_eq!(shell.get_var("X"), Some("5"));
}

#[test]
fn arithmetic_increment_decrement_side_effects() {
    let mut shell = new_shell();
    shell.shell_vars.insert("X".into(), "1".into());
    assert_eq!(single("$((X++))", &mut shell), "1");
    assert_eq!(shell.get_var("X"), Some("2"));
    assert_eq!(single("$((++X))", &mut shell), "3");
    assert_eq!(shell.get_var("X"), Some("3"));
}

#[test]
fn arithmetic_ternary_and_comparison() {
    let mut shell = new_shell();
    assert_eq!(single("$((3 > 2 ? 10 : 20))", &mut shell), "10");
}

#[test]
fn arithmetic_logical_and_or_short_circuit() {
    let mut shell = new_shell();
    shell.env_vars.insert("X".into(), "1".into());
    assert_eq!(single("$((0 && (X = 5)))", &mut shell), "0");
    assert_eq!(shell.get_var("X"), Some("1"));
    assert_eq!(single("$((1 || (X = 5)))", &mut shell), "1");
    assert_eq!(shell.get_var("X"), Some("1"));
}

#[test]
fn arithmetic_division_by_zero_errors() {
    let mut shell = new_shell();
    assert_eq!(
        single_err("$((1/0))", &mut shell),
        ExpandError::DivisionByZero
    );
    assert_eq!(
        single_err("$((1%0))", &mut shell),
        ExpandError::DivisionByZero
    );
}

#[test]
fn arithmetic_negative_exponent_errors() {
    let mut shell = new_shell();
    assert_eq!(
        single_err("$((2**-1))", &mut shell),
        ExpandError::NegativeExponent
    );
}

#[test]
fn arithmetic_overflow_wraps() {
    let mut shell = new_shell();
    assert_eq!(
        single("$((9223372036854775807+1))", &mut shell),
        i64::MIN.to_string()
    );
}

#[test]
fn arithmetic_self_referential_variable_errors_instead_of_hanging() {
    let mut shell = new_shell();
    shell.env_vars.insert("X".into(), "X".into());
    assert_eq!(
        single_err("$((X))", &mut shell),
        ExpandError::ArithmeticRecursionLimit
    );
}

#[test]
fn arithmetic_within_double_quotes_still_evaluates() {
    let mut shell = new_shell();
    assert_eq!(single("\"$((1+1))\"", &mut shell), "2");
}

#[test]
fn nested_nonquoting_single_quote_inside_arithmetic_parameter_expansion() {
    let mut shell = new_shell();
    assert!(matches!(
        single_err("$(( ${X:-'a'} ))", &mut shell),
        ExpandError::ArithmeticSyntax(_)
    ));
}

#[test]
fn arithmetic_tilde_is_not_special() {
    let mut shell = new_shell();
    shell.env_vars.insert("HOME".into(), "/home/conch".into());
    assert_eq!(single("$((~0))", &mut shell), "-1");
}

fn set_positional(shell: &mut Shell, params: &[&str]) {
    shell.positional_params = params.iter().map(|s| s.to_string()).collect();
}

#[test]
fn positional_parameter_expands_to_its_value_or_empty_if_unset() {
    let mut shell = new_shell();
    set_positional(&mut shell, &["first", "second"]);
    assert_eq!(single("$1", &mut shell), "first");
    assert_eq!(single("$2", &mut shell), "second");
    assert_eq!(single("$3", &mut shell), "");
}

#[test]
fn hash_expands_to_positional_param_count() {
    let mut shell = new_shell();
    assert_eq!(single("$#", &mut shell), "0");
    set_positional(&mut shell, &["a", "b", "c"]);
    assert_eq!(single("$#", &mut shell), "3");
}

#[test]
fn dollar_zero_expands_to_arg0() {
    let mut shell = new_shell();
    shell.arg0 = "myscript".to_string();
    assert_eq!(single("$0", &mut shell), "myscript");
}

#[test]
fn quoted_at_produces_one_independent_field_per_positional_parameter() {
    let mut shell = new_shell();
    set_positional(&mut shell, &["one", "two", "three"]);
    assert_eq!(
        fields(r#"pre"$@"post"#, &mut shell),
        vec!["preone", "two", "threepost"]
    );
}

#[test]
fn quoted_at_with_zero_positional_params_produces_zero_fields() {
    let mut shell = new_shell();
    assert_eq!(fields(r#""$@""#, &mut shell), Vec::<String>::new());
}

#[test]
fn empty_double_quoted_word_is_one_empty_field_not_zero() {
    let mut shell = new_shell();
    assert_eq!(fields(r#""""#, &mut shell), vec![""]);
}

#[test]
fn empty_double_quoted_word_glued_to_literal_text_stays_one_field() {
    let mut shell = new_shell();
    assert_eq!(fields(r#"a""b"#, &mut shell), vec!["ab"]);
}

#[test]
fn quoted_at_with_zero_positional_params_glued_to_literal_text_keeps_the_literal_text() {
    let mut shell = new_shell();
    assert_eq!(fields(r#"pre"$@"post"#, &mut shell), vec!["prepost"]);
}

#[test]
fn quoted_at_preserves_an_empty_positional_parameter_as_its_own_field() {
    let mut shell = new_shell();
    set_positional(&mut shell, &["a", "", "b"]);
    assert_eq!(fields(r#""$@""#, &mut shell), vec!["a", "", "b"]);
}

#[test]
fn quoted_star_joins_positional_params_by_first_ifs_char() {
    let mut shell = new_shell();
    set_positional(&mut shell, &["a", "b", "c"]);
    assert_eq!(fields(r#""$*""#, &mut shell), vec!["a b c"]);
    shell.env_vars.insert("IFS".into(), ",".into());
    assert_eq!(fields(r#""$*""#, &mut shell), vec!["a,b,c"]);
    shell.env_vars.insert("IFS".into(), String::new());
    assert_eq!(fields(r#""$*""#, &mut shell), vec!["abc"]);
}

#[test]
fn unquoted_at_and_star_are_indistinguishable_under_custom_ifs() {
    let mut shell = new_shell();
    shell.env_vars.insert("IFS".into(), ",".into());
    set_positional(&mut shell, &["a b", "c d"]);
    assert_eq!(fields("$@", &mut shell), vec!["a b", "c d"]);
    assert_eq!(fields("$*", &mut shell), vec!["a b", "c d"]);
}

#[test]
fn unquoted_at_under_default_ifs_splits_each_parameter_and_discards_empty_ones() {
    let mut shell = new_shell();
    set_positional(&mut shell, &["a", "", "b"]);
    assert_eq!(fields("$@", &mut shell), vec!["a", "b"]);
}

#[test]
fn unquoted_at_under_default_ifs_further_splits_each_parameters_own_text() {
    let mut shell = new_shell();
    set_positional(&mut shell, &["a b", "c d"]);
    assert_eq!(fields("$@", &mut shell), vec!["a", "b", "c", "d"]);
}

#[test]
fn unquoted_at_custom_delimiter_ifs_can_produce_an_extra_boundary_field() {
    let mut shell = new_shell();
    shell.env_vars.insert("IFS".into(), ",".into());
    set_positional(&mut shell, &["a,", "b"]);
    assert_eq!(fields("$@", &mut shell), vec!["a", "", "b"]);
    set_positional(&mut shell, &["a,", ",b"]);
    assert_eq!(fields("$@", &mut shell), vec!["a", "", "", "b"]);
}

#[test]
fn unquoted_at_with_ifs_empty_preserves_fields_without_further_splitting() {
    let mut shell = new_shell();
    shell.env_vars.insert("IFS".into(), String::new());
    set_positional(&mut shell, &["a,", "b"]);
    assert_eq!(fields("$@", &mut shell), vec!["a,", "b"]);
}

#[test]
fn hash_of_at_and_star_is_positional_param_count_not_joined_text_length() {
    let mut shell = new_shell();
    set_positional(&mut shell, &["a", "bb", "ccc"]);
    assert_eq!(single("${#@}", &mut shell), "3");
    assert_eq!(single("${#*}", &mut shell), "3");
}

#[test]
fn at_and_star_count_as_unset_when_there_are_zero_positional_params() {
    let mut shell = new_shell();
    assert_eq!(single("${@-fallback}", &mut shell), "fallback");
    assert_eq!(single("${@:-fallback}", &mut shell), "fallback");
    assert_eq!(single("${*-fallback}", &mut shell), "fallback");

    set_positional(&mut shell, &["a", "b"]);
    assert_eq!(single("${@-fallback}", &mut shell), "a b");
}

//! The laws of the library, each on values of its own.

use conch::arithmetic::{parse_arithmetic_body, parse_arithmetic_expr, ArithExpr};
use conch::ast::{CaseTerminator, Command, CompoundCommandKind, Separator};
use conch::brace::{brace_expand, find_brace_group};
use conch::expand::arith::{arith_pow, checked_div, checked_rem, eval_arith};
use conch::expand::{expand_word_fields, expand_word_single, Answers, ExpandError, Request, Stop, Used};
use conch::fields::{glob_field, split_fields};
use conch::glob::{glob_match, remove_prefix, remove_suffix, sort_texts};
use conch::invocation::{exit_byte, read_arguments, Invocation};
use conch::jobs::{Awaited, ChildStatus, JobState, JobTable};
use conch::lexer::{
    lex, lex_backquote_expansion, lex_dollar_expansion, lex_double_quoted_body, lex_word_body,
    match_bare_parameter, LexError,
};
use conch::numbers::{i64_to_text, parse_i64};
use conch::parser::parse;
use conch::segment::Segment;
use conch::shell::{PreviousVar, Shell};
use conch::text::is_whitespace;
use conch::text_map::TextMap;
use conch::token::{
    Parameter, Span, SpecialParameter, Token, TokenKind, Word, WordSegment,
};
use conch::traps::{parse_ignored_trap_names, parse_signal_spec, Disposition, TrapAction};

fn new_shell() -> Shell {
    Shell::new("/work".to_string(), TextMap::new(), 4242)
}

fn strings(texts: &[&str]) -> Vec<String> {
    texts.iter().map(|t| t.to_string()).collect()
}

fn literal(text: &str) -> Word {
    Word::new(vec![WordSegment::Literal(text.to_string())])
}

fn segment(text: &str, unquoted: bool, splits: bool) -> Segment {
    Segment {
        text: text.to_string(),
        glob_eligible: unquoted,
        split_eligible: splits,
        force_field_break_after: false,
    }
}

fn eval(source: &str, shell: &mut Shell) -> Result<i64, ExpandError> {
    eval_arith(&parse_arithmetic_expr(source).unwrap(), shell, 0)
}

#[test]
fn white_space_is_what_the_standard_library_says() {
    for code in 0..=0x10_FFFF_u32 {
        if let Some(c) = char::from_u32(code) {
            assert_eq!(is_whitespace(c), c.is_whitespace(), "{code:x}");
        }
    }
}

#[test]
fn decimal_numbers_read_back() {
    for n in [0, 7, -7, 10, i64::MAX, i64::MIN, 1_000_000] {
        assert_eq!(i64_to_text(n), n.to_string());
        assert_eq!(parse_i64(&i64_to_text(n)), Some(n));
    }
    assert_eq!(parse_i64("9223372036854775808"), None);
    assert_eq!(parse_i64("+5"), Some(5));
    assert_eq!(parse_i64("5 "), None);
}

#[test]
fn tokens_stand_in_order_and_do_not_overlap() {
    let tokens = lex("echo 'é' \"$x\" | cat # end\n").unwrap();
    for pair in tokens.windows(2) {
        assert!(pair[0].span.end <= pair[1].span.start);
    }
    assert!(tokens.iter().all(|t| t.span.start < t.span.end));
}

#[test]
fn single_quotes_keep_any_text() {
    let text = "a \"$x\" `y` \\ * # ;\n";
    let tokens = lex(&format!("'{text}'")).unwrap();
    assert_eq!(tokens.len(), 1);
    assert_eq!(
        tokens[0].kind,
        TokenKind::Word(Word::new(vec![WordSegment::SingleQuoted(text.to_string())]))
    );
    assert_eq!(tokens[0].span.end, text.len() + 2);
}

#[test]
fn only_the_last_item_of_a_list_lacks_a_separator() {
    let list = parse("a; b & c").unwrap();
    let separators: Vec<Separator> = list.items.iter().map(|i| i.separator).collect();
    assert_eq!(separators, vec![Separator::Sequential, Separator::Async, Separator::End]);
}

#[test]
fn only_the_last_arm_of_a_case_lacks_its_terminator() {
    let list = parse("case x in a) b ;; c) d\nesac").unwrap();
    let Command::Compound(compound) = &list.items[0].and_or.first.commands[0] else {
        unreachable!()
    };
    let CompoundCommandKind::Case(clause) = &compound.kind else { unreachable!() };
    assert_eq!(clause.arms[0].terminator, CaseTerminator::Break);
    assert_eq!(clause.arms[1].terminator, CaseTerminator::Omitted);
}

#[test]
fn blank_input_is_the_empty_program() {
    for input in ["", "  \t", "\n\n", "# only a comment", " # a\n\t# b\n"] {
        assert!(parse(input).unwrap().items.is_empty(), "{input:?}");
    }
}

#[test]
fn an_arithmetic_body_holds_no_quotes() {
    let word = parse_arithmetic_body("\"1\" + $x + 'a'").unwrap();
    assert!(word
        .segments
        .iter()
        .all(|s| !matches!(s, WordSegment::SingleQuoted(_) | WordSegment::DoubleQuoted(_))));
}

#[test]
fn an_arithmetic_body_merges_its_literals() {
    let word = parse_arithmetic_body("1$\"\"\\$2\\\n3$.4${x}\"\"$(y)5\"6\"").unwrap();
    assert_eq!(word.segments.len(), 4);
    assert_eq!(word.segments[0], WordSegment::Literal("1$$23$.4".to_string()));
    assert_eq!(word.segments[3], WordSegment::Literal("56".to_string()));
    assert_eq!(parse_arithmetic_body("\"\"").unwrap().segments, vec![]);
}

#[test]
fn an_arithmetic_body_may_hold_any_character_before_its_end() {
    let word = parse_arithmetic_body("1+$((2é))").unwrap();
    assert_eq!(word.segments[1], WordSegment::ArithmeticExpansion("2é".to_string()));
}

#[test]
fn blank_text_is_the_expression_zero() {
    for source in ["", " ", "\t\n\u{3000}"] {
        assert_eq!(parse_arithmetic_expr(source).unwrap(), ArithExpr::Number(0));
    }
}

#[test]
fn literals_wrap_to_64_bits() {
    assert_eq!(
        parse_arithmetic_expr("18446744073709551617").unwrap(),
        ArithExpr::Number(1)
    );
}

#[test]
fn a_number_that_arithmetic_assigns_reads_back() {
    for n in [0, 5, -5, i64::MAX, i64::MIN] {
        let mut shell = new_shell();
        shell.shell_vars.insert("x".to_string(), n.to_string());
        assert_eq!(eval("x", &mut shell), Ok(n));
        assert_eq!(eval("y = x", &mut shell), Ok(n));
        assert_eq!(shell.get_var("y"), Some(n.to_string().as_str()));
        assert_eq!(eval("y", &mut shell), Ok(n));
    }
}

#[test]
fn division_rounds_towards_zero() {
    let mut shell = new_shell();
    for (l, r) in [(7, 2), (-7, 2), (7, -2), (-7, -2), (i64::MIN, -1)] {
        assert_eq!(eval(&format!("{l} / {r}"), &mut shell), Ok(l.wrapping_div(r)), "{l} / {r}");
        assert_eq!(eval(&format!("{l} % {r}"), &mut shell), Ok(l.wrapping_rem(r)), "{l} % {r}");
    }
}

#[test]
fn operators_compute_what_they_should() {
    let mut shell = new_shell();
    let cases = [
        ("3 ** 4", 81),
        ("7 ** 30", 7i64.wrapping_pow(30)),
        ("(-3) ** 3", -27),
        ("2 ** 64", 0),
        ("1 << 65", 2),
        ("1 << -1", i64::MIN),
        ("-16 >> 2", -4),
        ("6 & 3", 2),
        ("6 ^ 3", 5),
        ("6 | 3", 7),
        ("~6", -7),
        ("!6", 0),
        ("!0", 1),
        ("2 < 3", 1),
        ("3 <= 2", 0),
        ("2 == 2", 1),
        ("2 != 2", 0),
        ("1 && 2", 1),
        ("0 || 0", 0),
        ("-9223372036854775808", i64::MIN),
    ];
    for (source, value) in cases {
        assert_eq!(eval(source, &mut shell), Ok(value), "{source}");
    }
    for (source, value) in [
        ("a = 5", 5),
        ("a += 2", 7),
        ("a -= 1", 6),
        ("a *= 4", 24),
        ("a /= 5", 4),
        ("a %= 3", 1),
        ("a <<= 4", 16),
        ("a >>= 1", 8),
        ("a &= 12", 8),
        ("a ^= 3", 11),
        ("a |= 4", 15),
        ("a--", 15),
        ("--a", 13),
        ("a, 2", 2),
    ] {
        assert_eq!(eval(source, &mut shell), Ok(value), "{source}");
    }
}

#[test]
fn a_blank_or_unset_variable_is_zero() {
    let mut shell = new_shell();
    shell.shell_vars.insert("blank".to_string(), "  ".to_string());
    assert_eq!(eval("blank + unset", &mut shell), Ok(0));
}

#[test]
fn variables_that_refer_to_each_other_are_an_error() {
    let mut shell = new_shell();
    shell.shell_vars.insert("a".to_string(), "b + 1".to_string());
    shell.shell_vars.insert("b".to_string(), "a".to_string());
    assert_eq!(eval("a", &mut shell), Err(ExpandError::ArithmeticRecursionLimit));
}

#[test]
fn an_untaken_operand_is_not_evaluated() {
    let mut shell = new_shell();
    assert_eq!(eval("0 && (x = 1)", &mut shell), Ok(0));
    assert_eq!(eval("1 || (x = 1)", &mut shell), Ok(1));
    assert_eq!(eval("1 ? 2 : (x = 1)", &mut shell), Ok(2));
    assert_eq!(shell.get_var("x"), None);
}

#[test]
fn assignments_happen_before_a_failure() {
    let mut shell = new_shell();
    assert_eq!(eval("(x = 4) / 0", &mut shell), Err(ExpandError::DivisionByZero));
    assert_eq!(shell.get_var("x"), Some("4"));
}

#[test]
fn brace_expansion_leaves_no_group() {
    let words = brace_expand(&literal("{a,{b,c}}{1..3}"));
    assert_eq!(words.len(), 9);
    for word in &words {
        assert_eq!(brace_expand(word), vec![word.clone()]);
    }
}

#[test]
fn brace_ranges_reach_the_ends_of_the_numbers() {
    let texts = |source: &str| -> Vec<Word> { brace_expand(&literal(source)) };
    assert_eq!(
        texts("{9223372036854775806..9223372036854775807}"),
        vec![literal("9223372036854775806"), literal("9223372036854775807")]
    );
    assert_eq!(
        texts("{-9223372036854775807..-9223372036854775808}"),
        vec![literal("-9223372036854775807"), literal("-9223372036854775808")]
    );
    assert_eq!(texts("{1..3..-9223372036854775808}"), vec![literal("1")]);
    assert_eq!(texts("{1..3..0}"), vec![literal("1"), literal("2"), literal("3")]);
    assert_eq!(texts("{c..a}"), vec![literal("c"), literal("b"), literal("a")]);
    assert_eq!(texts("{a..b..1}"), vec![literal("{a..b..1}")]);
    assert_eq!(texts("{1..x}"), vec![literal("{1..x}")]);
    assert_eq!(texts("x{,y}"), vec![literal("x"), Word::new(vec![
        WordSegment::Literal("x".to_string()),
        WordSegment::Literal("y".to_string()),
    ])]);
}

#[test]
fn patterns_match_whole_texts() {
    let cases = [
        ("*", "", true),
        ("*", "anything", true),
        ("a*c", "abbc", true),
        ("a*c", "abbd", false),
        ("?", "é", true),
        ("?", "", false),
        ("[a-c]x", "bx", true),
        ("[a-c]x", "dx", false),
        ("[!a-c]", "d", true),
        ("[!a-c]", "a", false),
        ("[]x]", "]", true),
        ("[a-]", "-", true),
        ("[a", "[a", false),
        ("\\*", "*", true),
        ("\\*", "x", false),
        ("a\\", "a\\", true),
    ];
    for (pattern, text, matches) in cases {
        assert_eq!(glob_match(pattern, text), matches, "{pattern} on {text}");
    }
}

#[test]
fn quoted_text_matches_itself_and_nothing_else() {
    let field = vec![segment("a*[b]\\?", false, false), segment("*", true, false)];
    let entries = strings(&["a*[b]\\?.txt", "aXb.txt", "a*[b]\\?"]);
    assert_eq!(glob_field(&field, &entries), strings(&["a*[b]\\?", "a*[b]\\?.txt"]));
}

#[test]
fn removed_prefixes_and_suffixes_are_extremal() {
    assert_eq!(remove_prefix("a.b.c", "*.", false), "b.c");
    assert_eq!(remove_prefix("a.b.c", "*.", true), "c");
    assert_eq!(remove_suffix("a.b.c", ".*", false), "a.b");
    assert_eq!(remove_suffix("a.b.c", ".*", true), "a");
    assert_eq!(remove_prefix("abc", "x", true), "abc");
    assert_eq!(remove_suffix("abc", "x", false), "abc");
    assert_eq!(remove_prefix("abc", "*", false), "abc");
    assert_eq!(remove_prefix("abc", "*", true), "");
}

#[test]
fn sorting_orders_by_character() {
    assert_eq!(
        sort_texts(strings(&["b", "a", "é", "B", "", "ab", "a"])),
        strings(&["", "B", "a", "a", "ab", "b", "é"])
    );
}

#[test]
fn names_that_match_come_in_order_and_hidden_ones_only_for_a_dot() {
    let star = vec![segment("*", true, false)];
    let dots = vec![segment(".*", true, false)];
    let entries = strings(&["z", ".x", "a"]);
    assert_eq!(glob_field(&star, &entries), strings(&["a", "z"]));
    assert_eq!(glob_field(&dots, &entries), strings(&[".x"]));
    assert_eq!(glob_field(&star, &strings(&[".x"])), strings(&["*"]));
}

#[test]
fn literal_and_quoted_text_is_not_split() {
    let field = vec![segment("a b", true, false), segment("c d", false, false)];
    assert_eq!(split_fields(field.clone(), " \t\n"), vec![field]);
}

#[test]
fn no_separator_is_left_in_a_split_piece() {
    let fields = split_fields(vec![segment(" a b,c ", true, true)], " ,");
    let texts: Vec<Vec<&str>> =
        fields.iter().map(|f| f.iter().map(|s| s.text.as_str()).collect()).collect();
    assert_eq!(texts, vec![vec!["a"], vec!["b"], vec!["c"]]);
}

#[test]
fn quoted_text_is_one_field() {
    let mut shell = new_shell();
    shell.shell_vars.insert("IFS".to_string(), "x*".to_string());
    let word = Word::new(vec![WordSegment::SingleQuoted("axb * $y".to_string())]);
    assert_eq!(
        expand_word_fields(&word, &mut shell, &Answers::new(), &mut Used::new()),
        Ok(strings(&["axb * $y"]))
    );
}

#[test]
fn quoted_at_is_the_positional_parameters() {
    let at = Word::new(vec![WordSegment::DoubleQuoted(vec![WordSegment::Parameter(
        Parameter::Special(SpecialParameter::At),
    )])]);
    let mut shell = new_shell();
    for params in [vec![], strings(&["a b", "", "*"])] {
        for ifs in [None, Some(""), Some(",")] {
            if let Some(ifs) = ifs {
                shell.shell_vars.insert("IFS".to_string(), ifs.to_string());
            }
            shell.positional_params = params.clone();
            assert_eq!(
                expand_word_fields(&at, &mut shell, &Answers::new(), &mut Used::new()),
                Ok(params.clone())
            );
        }
    }
}

#[test]
fn an_expansion_that_stops_can_be_started_again() {
    let word = {
        let list = parse("${x:=$(date)}$(date)*").unwrap();
        let Command::Simple(cmd) = &list.items[0].and_or.first.commands[0] else {
            unreachable!()
        };
        cmd.name.clone().unwrap()
    };
    let mut answers = Answers::new();
    for _ in 0..2 {
        let mut shell = new_shell();
        assert_eq!(
            expand_word_fields(&word, &mut shell, &answers, &mut Used::new()),
            Err(Stop::Needs(Request::CommandOutput("date".to_string())))
        );
        answers.outputs.push(Ok("now\n\n".to_string()));
    }
    let mut shell = new_shell();
    assert_eq!(
        expand_word_fields(&word, &mut shell, &answers, &mut Used::new()),
        Err(Stop::Needs(Request::DirectoryEntries))
    );
    answers.listings.push(strings(&["nownow.txt", "other"]));
    let mut shell = new_shell();
    let mut used = Used::new();
    assert_eq!(
        expand_word_fields(&word, &mut shell, &answers, &mut used),
        Ok(strings(&["nownow.txt"]))
    );
    assert_eq!(used, Used { outputs: 2, listings: 1 });
    assert_eq!(shell.get_var("x"), Some("now"));
    answers.outputs.push(Ok("unused".to_string()));
    let mut shell = new_shell();
    assert_eq!(
        expand_word_fields(&word, &mut shell, &answers, &mut Used::new()),
        Ok(strings(&["nownow.txt"]))
    );
}

#[test]
fn a_failed_command_substitution_is_an_error() {
    let word = Word::new(vec![WordSegment::CommandSubstitution(
        conch::token::CommandSubstitution {
            style: conch::token::SubstitutionStyle::DollarParen,
            body: "x".to_string(),
        },
    )]);
    let mut answers = Answers::new();
    answers.outputs.push(Err("no process".to_string()));
    assert_eq!(
        expand_word_single(&word, &mut new_shell(), &answers, &mut Used::new()),
        Err(Stop::Failed(ExpandError::CommandSubstitutionFailed("no process".to_string())))
    );
}

#[test]
fn restoring_undoes_whatever_happened() {
    let mut shell = new_shell();
    shell.env_vars.insert("E".to_string(), "exported".to_string());
    shell.shell_vars.insert("S".to_string(), "shell".to_string());
    for name in ["E", "S", "U"] {
        let before = shell.capture_var(name);
        let value = shell.get_var(name).map(str::to_string);
        shell.shell_vars.insert(name.to_string(), "x".to_string());
        shell.env_vars.remove(name);
        shell.restore_var(name, before);
        assert_eq!(shell.get_var(name).map(str::to_string), value);
    }
    assert_eq!(shell.capture_var("E"), PreviousVar::EnvVar("exported".to_string()));
    assert_eq!(shell.capture_var("S"), PreviousVar::ShellVar("shell".to_string()));
    assert_eq!(shell.capture_var("U"), PreviousVar::Unset);
}

#[test]
fn locals_end_with_their_call_however_often_they_are_declared() {
    let mut shell = new_shell();
    shell.shell_vars.insert("X".to_string(), "before".to_string());
    shell.push_local_frame();
    for value in ["one", "two"] {
        let previous = shell.capture_var("X");
        shell.record_local("X".to_string(), previous);
        shell.set_local("X", Some(value.to_string()));
    }
    shell.shell_vars.insert("Y".to_string(), "kept".to_string());
    assert!(shell.in_function_call());
    shell.pop_local_frame();
    assert!(!shell.in_function_call());
    assert_eq!(shell.get_var("X"), Some("before"));
    assert_eq!(shell.get_var("Y"), Some("kept"));
}

#[test]
fn jobs_keep_their_order_and_numbers() {
    let mut table = JobTable::new();
    assert_eq!(table.register(900, 900, "first".to_string()), 1);
    assert_eq!(table.register_stopped(100, 100, "second".to_string()), 2);
    assert_eq!(table.register(500, 500, "third".to_string()), 3);
    let ids: Vec<u32> = table.iter().iter().map(|job| job.id).collect();
    assert_eq!(ids, vec![1, 2, 3]);
    assert_eq!(table.get(2).unwrap().state, JobState::Stopped);
    assert_eq!(table.resolve_spec(Some("%second")), Ok(2));
    assert_eq!(table.resolve_spec(Some("%7")), Err("%7: no such job".to_string()));
    table.remove(3);
    assert_eq!(table.current_job_id(), Some(2));
    table.get_mut(1).unwrap().notified = true;
    assert!(table.get(1).unwrap().notified);
    assert_eq!(JobTable::new().resolve_spec(None), Err("current: no such job".to_string()));
}

#[test]
fn observing_a_process_touches_only_its_job() {
    let mut shell = new_shell();
    shell.job_table.register(10, 10, "a".to_string());
    shell.job_table.register(20, 20, "b".to_string());
    let seen = vec![
        (20, ChildStatus::Signaled(9)),
        (30, ChildStatus::Exited(0)),
        (10, ChildStatus::Unchanged),
    ];
    assert_eq!(shell.reap_children(&seen), vec![2]);
    assert_eq!(shell.job_table.get(1).unwrap().state, JobState::Running);
    assert_eq!(shell.job_table.get(2).unwrap().state, JobState::Signaled(9));
    assert_eq!(shell.wait_for_pid(20, false), Awaited::Ended(137));
    assert_eq!(shell.wait_for_pid(10, false), Awaited::Block);
    assert_eq!(shell.wait_for_pid(10, true), Awaited::Unknown);
    assert_eq!(shell.wait_for_pid(30, false), Awaited::Unknown);
    assert!(!shell.wait_for_all_background_jobs(false));
    assert!(shell.wait_for_all_background_jobs(true));
}

#[test]
fn traps_are_per_signal() {
    let mut shell = new_shell();
    let change = shell
        .trap_set_by_name("int", TrapAction::Command("echo i".to_string()))
        .unwrap()
        .unwrap();
    assert_eq!(change.signal, "SIGINT");
    assert_eq!(change.disposition, Disposition::Handle);
    shell.traps.note_handled("SIGINT");
    assert_eq!(shell.traps.command_for("SIGINT"), Some("echo i".to_string()));
    assert_eq!(shell.traps.command_for("SIGTERM"), None);
    let change = shell.trap_set_by_name("INT", TrapAction::Default).unwrap().unwrap();
    assert_eq!(change.disposition, Disposition::Default);
    assert!(shell.traps.handled().is_empty());
    shell.job_control_active = true;
    let change = shell.trap_set_by_name("INT", TrapAction::Default).unwrap().unwrap();
    assert_eq!(change.disposition, Disposition::Ignore);
    let change = shell.trap_set_by_name("CHLD", TrapAction::Default).unwrap().unwrap();
    assert_eq!(change.disposition, Disposition::Handle);
    assert_eq!(
        shell.trap_set_by_name("99999", TrapAction::Ignore),
        Err("trap: 99999: invalid signal number".to_string())
    );
    assert_eq!(
        shell.trap_describe_by_name("nope"),
        Err("trap: nope: invalid signal specification".to_string())
    );
}

#[test]
fn a_trap_that_is_set_back_is_gone_for_every_signal() {
    let mut shell = new_shell();
    for name in ["USR1", "CHLD"] {
        shell.trap_set_by_name(name, TrapAction::Command("x".to_string())).unwrap();
        assert!(shell.trap_describe_by_name(name).unwrap().is_some());
        shell.trap_set_by_name(name, TrapAction::Default).unwrap();
        assert_eq!(shell.trap_describe_by_name(name), Ok(None));
    }
}

#[test]
fn ignored_signals_stay_ignored_in_children() {
    let mut shell = new_shell();
    shell.trap_set_by_name("QUIT", TrapAction::Ignore).unwrap();
    shell.traps.note_handled("SIGUSR1");
    assert_eq!(
        shell.traps.signals_to_reset(),
        strings(&["SIGUSR1", "SIGINT", "SIGTSTP", "SIGTTIN", "SIGTTOU"])
    );
}

#[test]
fn ignored_signals_read_back() {
    let mut shell = new_shell();
    for name in ["HUP", "TERM"] {
        shell.trap_set_by_name(name, TrapAction::Ignore).unwrap();
    }
    shell.trap_set_by_name("INT", TrapAction::Command("x".to_string())).unwrap();
    assert_eq!(shell.ignored_trap_names(), "SIGHUP,SIGTERM");
    assert_eq!(parse_ignored_trap_names("SIGHUP,SIGTERM"), strings(&["SIGHUP", "SIGTERM"]));
    assert_eq!(parse_ignored_trap_names(",,NOPE,hup,EXIT,"), strings(&["SIGHUP"]));
}

#[test]
fn a_shell_takes_what_its_parent_hands_down() {
    let mut env = TextMap::new();
    env.insert("__CONCH_PID".to_string(), "77".to_string());
    env.insert("__CONCH_IGNORED_SIGNALS".to_string(), "SIGHUP,SIGINT".to_string());
    env.insert("HOME".to_string(), "/root".to_string());
    let shell = Shell::new("/".to_string(), env, 4242);
    assert_eq!(shell.pid, 77);
    assert_eq!(shell.trap_for(Some("SIGHUP")), Some(&TrapAction::Ignore));
    assert_eq!(shell.trap_for(Some("SIGINT")), Some(&TrapAction::Ignore));
    assert_eq!(shell.env_vars.len(), 1);
    assert_eq!(shell.arg0, "conch");
}

#[test]
fn arguments_say_how_to_start() {
    assert_eq!(read_arguments(&strings(&[])), Invocation::Interactive);
    assert_eq!(read_arguments(&strings(&["-c"])), Invocation::MissingCommand);
    assert_eq!(
        read_arguments(&strings(&["-c", "echo", "name", "a", "b"])),
        Invocation::Command {
            source: "echo".to_string(),
            arg0: Some("name".to_string()),
            params: strings(&["a", "b"]),
        }
    );
    assert_eq!(
        read_arguments(&strings(&["-c", "echo"])),
        Invocation::Command { source: "echo".to_string(), arg0: None, params: Vec::new() }
    );
    assert_eq!(
        read_arguments(&strings(&["script", "a"])),
        Invocation::Script { path: "script".to_string(), params: strings(&["a"]) }
    );
    assert_eq!(exit_byte(300), 44);
    assert_eq!(exit_byte(-1), 255);
}

#[test]
fn a_map_keeps_the_order_of_its_keys() {
    let mut map: TextMap<String> = TextMap::new();
    assert_eq!(map.insert("b".to_string(), "1".to_string()), None);
    assert_eq!(map.insert("a".to_string(), "2".to_string()), None);
    assert_eq!(map.insert("b".to_string(), "3".to_string()), Some("1".to_string()));
    assert_eq!(map.len(), 2);
    assert_eq!(map.entry(0).0, "b");
    assert_eq!(map.entry(0).1, "3");
    assert_eq!(map.remove("b"), Some("3".to_string()));
    assert_eq!(map.remove("b"), None);
    assert_eq!(map.get("a"), Some(&"2".to_string()));
    assert!(!map.contains_key("b"));
}

#[test]
fn signals_are_found_by_number_and_by_name() {
    let fixed = [
        ("1", "SIGHUP"),
        ("2", "SIGINT"),
        ("3", "SIGQUIT"),
        ("4", "SIGILL"),
        ("6", "SIGABRT"),
        ("8", "SIGFPE"),
        ("9", "SIGKILL"),
        ("11", "SIGSEGV"),
        ("14", "SIGALRM"),
        ("15", "SIGTERM"),
    ];
    for (number, name) in fixed {
        assert_eq!(parse_signal_spec(number), Ok(Some(name.to_string())));
        assert_eq!(parse_signal_spec(&name[3..].to_lowercase()), Ok(Some(name.to_string())));
    }
    for number in ["0", "-1", "65", "2147483647"] {
        assert_eq!(
            parse_signal_spec(number),
            Err(format!("trap: {number}: invalid signal number"))
        );
    }
    assert_eq!(
        parse_signal_spec("2147483648"),
        Err("trap: 2147483648: invalid signal specification".to_string())
    );
}

#[test]
fn the_text_of_a_subshell_is_parsed_into_its_body() {
    for source in ["(a; (b # )\n) | d; $(e)x)", "( f() { 'é)'; }\n)", "()", "(2>x; \\\n)"] {
        let list = parse(source).unwrap();
        let Command::Compound(compound) = &list.items[0].and_or.first.commands[0] else {
            unreachable!()
        };
        let CompoundCommandKind::Subshell(subshell) = &compound.kind else { unreachable!() };
        assert_eq!(parse(&subshell.source).as_ref(), Ok(&subshell.body), "{source}");
        assert_eq!(format!("({})", subshell.source), source);
    }
}

#[test]
fn only_blanks_and_newlines_are_white_space_to_ifs() {
    let texts = |text: &str, ifs: &str| -> Vec<String> {
        split_fields(vec![segment(text, true, true)], ifs)
            .iter()
            .map(|f| f.iter().map(|s| s.text.as_str()).collect())
            .collect()
    };
    assert_eq!(texts(" \ta \n b\t", " \t\n"), strings(&["a", "b"]));
    assert_eq!(texts("a\r\rb", "\r"), strings(&["a", "", "b"]));
    assert_eq!(texts("a,,b,", ","), strings(&["a", "", "b"]));
}

#[test]
fn an_observation_that_changes_nothing_is_no_news() {
    let mut shell = new_shell();
    shell.job_table.register_stopped(10, 10, "a".to_string());
    shell.job_table.get_mut(1).unwrap().notified = true;
    assert!(shell.reap_children(&vec![(10, ChildStatus::Stopped(20))]).is_empty());
    assert!(shell.job_table.get(1).unwrap().notified);
    assert_eq!(shell.reap_children(&vec![(10, ChildStatus::Continued)]), vec![1]);
    assert!(!shell.job_table.get(1).unwrap().notified);
}

#[test]
fn only_a_single_literal_has_a_plain_text() {
    assert_eq!(literal("a b").as_plain_literal(), Some("a b"));
    assert_eq!(Word::new(Vec::new()).as_plain_literal(), None);
    let quoted = Word::new(vec![WordSegment::SingleQuoted("a".to_string())]);
    assert_eq!(quoted.as_plain_literal(), None);
}

#[test]
fn spans_can_be_cut_out_of_the_input() {
    let input = "é 'ü' | \"$ö\"x\u{1f41a} 3>ß";
    let cut: Vec<&str> =
        lex(input).unwrap().iter().map(|t| &input[t.span.start..t.span.end]).collect();
    assert_eq!(cut, vec!["é", "'ü'", "|", "\"$ö\"x\u{1f41a}", "3", ">", "ß"]);
}

#[test]
fn only_the_last_newlines_of_an_output_are_dropped() {
    let word = Word::new(vec![WordSegment::DoubleQuoted(vec![WordSegment::CommandSubstitution(
        conch::token::CommandSubstitution {
            style: conch::token::SubstitutionStyle::Backtick,
            body: "x".to_string(),
        },
    )])]);
    for (output, text) in [("\na\n b \n\n", "\na\n b "), ("\n\n", ""), ("a", "a")] {
        let mut answers = Answers::new();
        answers.outputs.push(Ok(output.to_string()));
        assert_eq!(
            expand_word_single(&word, &mut new_shell(), &answers, &mut Used::new()),
            Ok(text.to_string())
        );
    }
}

#[test]
fn the_parentheses_that_close_arithmetic_stand_side_by_side() {
    let start = |input: &str| lex(input).unwrap_err();
    for input in ["$((1+2) )", "$((a)é)", "$((a) $(b))", "$((a) \\))", "\"$((1) )\"", "$(x $((1) ) )"] {
        let open = input.find("$((").unwrap();
        assert_eq!(
            start(input),
            LexError::UnterminatedArithmeticExpansion { start: open },
            "{input}"
        );
    }
    for body in ["", "1+2", "(a)+(b)", " (é) ", "a)+(b", "$(x) + ')'"] {
        let input = format!("$(({body}))");
        let (segment, len) = lex_dollar_expansion(&input).unwrap();
        assert_eq!(segment, WordSegment::ArithmeticExpansion(body.to_string()));
        assert_eq!(len, input.len());
    }
}

#[test]
fn an_assignment_is_typed_without_quoting() {
    let command = |source: &str| {
        let list = parse(source).unwrap();
        let Command::Simple(cmd) = list.items[0].and_or.first.commands[0].clone() else {
            unreachable!()
        };
        cmd
    };
    for source in ["F\\OO=bar", "\\FOO=bar", "FOO\\=bar", "é=bar", "'FOO'=bar"] {
        let cmd = command(source);
        assert!(cmd.assignments.is_empty() && cmd.name.is_some() && cmd.args.is_empty());
    }
    for source in ["FOO=bar", "FO\\\nO=bar", "\\\nFOO=bar"] {
        let cmd = command(source);
        assert_eq!(cmd.assignments[0].name, "FOO");
        assert_eq!(cmd.assignments[0].value, literal("bar"));
        assert!(cmd.name.is_none());
    }
    let cmd = command("A=é B=\\$x C\\=3");
    assert_eq!(cmd.assignments.len(), 2);
    assert_eq!(cmd.name, Some(literal("C=3")));
}

#[test]
fn braces_without_alternatives_are_passed_over() {
    assert_eq!(
        find_brace_group("{foo}{a,b}"),
        Some(("{foo}".to_string(), strings(&["a", "b"]), String::new()))
    );
    assert_eq!(
        find_brace_group("x{}{{y}}{1..2}z{c,d}"),
        Some(("x{}{{y}}".to_string(), strings(&["1", "2"]), "z{c,d}".to_string()))
    );
    assert_eq!(find_brace_group("{foo}{bar}"), None);
    assert_eq!(find_brace_group("{foo}{a,b"), None);
    let words: Vec<String> = brace_expand(&literal("{foo}{a,b}"))
        .iter()
        .map(|w| {
            w.segments
                .iter()
                .map(|s| match s {
                    WordSegment::Literal(t) => t.as_str(),
                    _ => unreachable!(),
                })
                .collect()
        })
        .collect();
    assert_eq!(words, strings(&["{foo}a", "{foo}b"]));
}

#[test]
fn quoting_hides_reserved_words_and_names() {
    for source in ["\\if x", "i\\f x", "'if' x", "\\{ x", "func\\tion f x"] {
        let list = parse(source).unwrap();
        assert!(matches!(list.items[0].and_or.first.commands[0], Command::Simple(_)), "{source}");
    }
    for source in ["f\\oo() { x; }", "for \\x in a; do b; done", "if a; t\\hen b; fi", "{ x; \\}"] {
        assert!(parse(source).is_err(), "{source}");
    }
    let list = parse("i\\\nf a; then b; f\\\ni").unwrap();
    assert!(matches!(list.items[0].and_or.first.commands[0], Command::Compound(_)));
}

#[test]
fn parentheses_and_blanks_leave_no_trace() {
    for source in ["1", "a = b ? 2, 3 : 0x1f", "-x ** 2 << 3", "(a)", "x++ || !y", "2#101"] {
        let tree = parse_arithmetic_expr(source);
        assert!(tree.is_ok());
        assert_eq!(parse_arithmetic_expr(&format!("({source})")), tree);
        assert_eq!(parse_arithmetic_expr(&format!(" \u{3000}{source}\n\t")), tree);
    }
    assert!(parse_arithmetic_expr("()").is_err());
}

#[test]
fn lines_are_lexed_apart() {
    let (a, b) = ("é # c", "\t'x' 2>y");
    let mut tokens = lex(a).unwrap();
    tokens.push(Token::new(TokenKind::Newline, Span::new(a.len(), a.len() + 1)));
    for token in lex(b).unwrap() {
        let (start, end) = (token.span.start + a.len() + 1, token.span.end + a.len() + 1);
        tokens.push(Token::new(token.kind, Span::new(start, end)));
    }
    assert_eq!(lex(&format!("{a}\n{b}")), Ok(tokens));
}

#[test]
fn a_body_reads_the_same_between_double_quotes() {
    for body in ["", "a $x `y` \\\" 'z' $((1)) ${w:-\"v\"} $", "\\\n\\q"] {
        let segments = lex_double_quoted_body(body).unwrap();
        let word = Word::new(vec![WordSegment::DoubleQuoted(segments)]);
        assert_eq!(
            lex(&format!("\"{body}\"")),
            Ok(vec![Token::new(TokenKind::Word(word), Span::new(0, body.len() + 2))])
        );
    }
}

#[test]
fn a_whole_word_is_read_as_it_is_lexed() {
    for input in ["a", "a\\ b'c|d'\"$e `f`\"${g:-h i}$((1 + 2))$(j; k)\\\nl$", "2", "é#", "''"] {
        let word = lex_word_body(input).unwrap();
        assert_eq!(
            lex(input),
            Ok(vec![Token::new(TokenKind::Word(word), Span::new(0, input.len()))])
        );
    }
    assert_eq!(lex("a ").unwrap().len(), 1);
    assert_eq!(lex_word_body("a "), Ok(literal("a ")));
}

#[test]
fn what_follows_an_expansion_does_not_change_it() {
    for text in ["${x}", "${10}", "${x:-}", "${x#'}'}", "$((1 + (2)))", "$(a (b) ')')", "$1", "$$"] {
        for rest in ["", "}", ")", ")) $((", "(", "{", "1", "x", "'\"`\\", "é"] {
            let (segment, len) = lex_dollar_expansion(text).unwrap();
            assert_eq!(len, text.len());
            assert_eq!(lex_dollar_expansion(&format!("{text}{rest}")), Ok((segment, len)));
        }
    }
    let (segment, len) = lex_backquote_expansion("`a \\` $`").unwrap();
    assert_eq!(len, 8);
    assert_eq!(lex_backquote_expansion("`a \\` $``b"), Ok((segment, len)));
    // A name goes on, and so does a `$` that introduced nothing.
    assert_eq!(lex_dollar_expansion("$x").unwrap().1, 2);
    assert_eq!(lex_dollar_expansion("$x-y").unwrap().1, 2);
    assert_eq!(lex_dollar_expansion("$xy").unwrap().1, 3);
    assert_eq!(lex_dollar_expansion("$").unwrap().1, 1);
    assert_eq!(lex_dollar_expansion("$.").unwrap().1, 1);
    assert_eq!(lex_dollar_expansion("$y").unwrap().1, 2);
}

#[test]
fn what_follows_a_parameter_does_not_change_it() {
    for (text, rest, in_braces) in [
        ("x1", "", true),
        ("x1", ":-y", true),
        ("12", "x", true),
        ("1", "2", false),
        ("0", "", true),
        ("#", "x", true),
        ("_", "é", false),
    ] {
        let (parameter, len) = match_bare_parameter(text, in_braces).unwrap();
        assert_eq!(len, text.len());
        assert_eq!(
            match_bare_parameter(&format!("{text}{rest}"), in_braces),
            Some((parameter, len))
        );
    }
    assert_eq!(match_bare_parameter("12", true), Some((Parameter::Positional(12), 2)));
    assert_eq!(match_bare_parameter("xy", false).unwrap().1, 2);
}

#[test]
fn powers_with_added_exponents_multiply() {
    for base in [0, 1, -1, 3, -7, i64::MAX, i64::MIN] {
        assert_eq!(arith_pow(base, 0), Ok(1));
        assert_eq!(arith_pow(base, 1), Ok(base));
        assert_eq!(arith_pow(base, -1), Err(ExpandError::NegativeExponent));
        for (m, n) in [(2, 3), (40, 41), (0, 9)] {
            let product = arith_pow(base, m).unwrap().wrapping_mul(arith_pow(base, n).unwrap());
            assert_eq!(arith_pow(base, m + n), Ok(product));
        }
    }
}

#[test]
fn quotient_and_remainder_make_up_the_dividend() {
    for l in [0, 7, -7, i64::MAX, i64::MIN] {
        assert_eq!(checked_div(l, 0), Err(ExpandError::DivisionByZero));
        assert_eq!(checked_rem(l, 0), Err(ExpandError::DivisionByZero));
        for r in [1, -1, 2, -2, i64::MAX, i64::MIN] {
            let (q, m) = (checked_div(l, r).unwrap(), checked_rem(l, r).unwrap());
            assert_eq!(q.wrapping_mul(r).wrapping_add(m), l);
            assert!(m.unsigned_abs() < r.unsigned_abs());
        }
    }
}

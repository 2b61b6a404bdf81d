//! Every error, and what its message says.

use conch::arithmetic::{parse_arithmetic_body, parse_arithmetic_expr, ArithError};
use conch::expand::ExpandError;
use conch::lexer::{lex, LexError};
use conch::parameter::{parse_parameter_expansion, ParamExpansionError};
use conch::parser::{parse, ParseError};
use conch::token::Span;

fn lex_error(input: &str) -> LexError {
    lex(input).unwrap_err()
}

#[test]
fn every_lex_error_says_where_the_construct_opened() {
    let cases = [
        (
            "a 'b",
            LexError::UnterminatedSingleQuote { start: 2 },
            "unterminated single-quoted string (opened at byte 2)",
        ),
        (
            "é\"b",
            LexError::UnterminatedDoubleQuote { start: 2 },
            "unterminated double-quoted string (opened at byte 2)",
        ),
        (
            "${x",
            LexError::UnterminatedParameterExpansion { start: 0 },
            "unterminated `${...}` parameter expansion (opened at byte 0)",
        ),
        (
            "a$(b",
            LexError::UnterminatedCommandSubstitution { start: 1 },
            "unterminated `$(...)` command substitution (opened at byte 1)",
        ),
        (
            "`b",
            LexError::UnterminatedBackquote { start: 0 },
            "unterminated backquoted command substitution (opened at byte 0)",
        ),
        (
            "$((1+2)",
            LexError::UnterminatedArithmeticExpansion { start: 0 },
            "unterminated `$((...))` arithmetic expansion (opened at byte 0)",
        ),
        (
            "ab\\",
            LexError::TrailingBackslash { pos: 2 },
            "backslash at end of input with no character to escape (byte 2)",
        ),
    ];
    for (input, error, text) in cases {
        assert_eq!(lex_error(input), error);
        assert_eq!(error.message(), text);
    }
}

#[test]
fn parse_errors_name_what_was_found_and_expected() {
    let err = parse("echo )").unwrap_err();
    assert_eq!(
        err,
        ParseError::UnexpectedToken {
            found: "operator ')'".to_string(),
            span: Span::new(5, 6),
            expected: "a separator (';', '&', or newline) or end of input".to_string(),
        }
    );
    assert_eq!(
        err.message(),
        "unexpected operator ')' at byte 5, expected a separator (';', '&', or newline) or end of input"
    );
    let err = parse("if true").unwrap_err();
    assert_eq!(err.message(), "unexpected end of input, expected 'then'");
    let err = parse("echo 'x").unwrap_err();
    assert_eq!(err, ParseError::Lex(LexError::UnterminatedSingleQuote { start: 5 }));
    assert_eq!(err.message(), "unterminated single-quoted string (opened at byte 5)");
    let unsupported = ParseError::UnsupportedConstruct {
        message: "heredocs are not supported".to_string(),
        span: Span::new(4, 6),
    };
    assert_eq!(unsupported.message(), "heredocs are not supported (at byte 4)");
}

#[test]
fn a_word_in_a_message_is_quoted_with_escapes() {
    let ParseError::UnexpectedToken { found, .. } = parse("for a\u{7}b in x; do y; done").unwrap_err()
    else {
        unreachable!()
    };
    assert_eq!(found, "word \"a\\u{7}b\"");
}

#[test]
fn every_arithmetic_error_has_its_message() {
    let cases = [
        (
            parse_arithmetic_expr("1 . 2").unwrap_err(),
            ArithError::UnexpectedChar { found: '.', pos: 2 },
            "invalid character '.' in arithmetic expression (byte 2)",
        ),
        (
            parse_arithmetic_expr("1 +").unwrap_err(),
            ArithError::UnexpectedEnd { expected: "an operand".to_string() },
            "unexpected end of arithmetic expression, expected an operand",
        ),
        (
            parse_arithmetic_expr("(1 2").unwrap_err(),
            ArithError::UnexpectedToken { expected: "')'".to_string(), pos: 3 },
            "unexpected token in arithmetic expression, expected ')' (byte 3)",
        ),
        (
            parse_arithmetic_expr("5++").unwrap_err(),
            ArithError::NotAnIdentifier { op: "id++", pos: 0 },
            "`id++` requires an identifier operand (byte 0)",
        ),
        (
            parse_arithmetic_expr("65#1").unwrap_err(),
            ArithError::InvalidBase { base: "65".to_string(), pos: 0 },
            "invalid arithmetic base \"65\" (byte 0); base must be between 2 and 64",
        ),
        (
            parse_arithmetic_expr("08").unwrap_err(),
            ArithError::DigitOutOfRange { digit: '8', base: 8, pos: 0 },
            "digit '8' is not valid in base 8 (byte 0)",
        ),
        (
            parse_arithmetic_body("1\\").unwrap_err(),
            ArithError::TrailingBackslash { pos: 1 },
            "backslash at end of arithmetic expansion body with no character to escape (byte 1)",
        ),
        (
            parse_arithmetic_body("$(x").unwrap_err(),
            ArithError::Lex(LexError::UnterminatedCommandSubstitution { start: 0 }),
            "unterminated `$(...)` command substitution (opened at byte 0)",
        ),
    ];
    for (found, wanted, text) in cases {
        assert_eq!(found, wanted);
        assert_eq!(found.message(), text);
    }
    let quote = parse_arithmetic_expr("1 ' 2").unwrap_err();
    assert_eq!(quote.message(), "invalid character '\\'' in arithmetic expression (byte 2)");
}

#[test]
fn every_parameter_expansion_error_has_its_message() {
    let invalid = parse_parameter_expansion("/x", false).unwrap_err();
    assert_eq!(invalid, ParamExpansionError::InvalidParameter { body: "/x".to_string() });
    assert_eq!(invalid.message(), "`${/x}` is not a valid parameter name or expansion");
    let operator = parse_parameter_expansion("x^^", false).unwrap_err();
    assert_eq!(operator, ParamExpansionError::UnrecognizedOperator { body: "x^^".to_string() });
    assert_eq!(
        operator.message(),
        "`${x^^}`: not a recognized POSIX parameter-expansion operator (bash extensions like `${var/pat/repl}` or `${var^^}` aren't supported yet)"
    );
    let lex = parse_parameter_expansion("x:-'y", false).unwrap_err();
    assert_eq!(
        lex,
        ParamExpansionError::Lex(LexError::UnterminatedSingleQuote { start: 0 })
    );
    assert_eq!(lex.message(), "unterminated single-quoted string (opened at byte 0)");
}

#[test]
fn every_expansion_error_has_its_message() {
    let cases = [
        (
            ExpandError::UnsupportedConstruct { construct: "`${x^^}`" },
            "`${x^^}` is not yet supported",
        ),
        (
            ExpandError::CommandSubstitutionFailed("no fork".to_string()),
            "command substitution failed: no fork",
        ),
        (ExpandError::ParameterExpansionSyntax("bad".to_string()), "bad"),
        (ExpandError::ParameterNullOrUnset("X: unset".to_string()), "X: unset"),
        (ExpandError::CannotAssign("1".to_string()), "1: cannot assign in this way"),
        (ExpandError::ArithmeticSyntax("bad sum".to_string()), "bad sum"),
        (ExpandError::DivisionByZero, "division by 0"),
        (ExpandError::NegativeExponent, "exponent less than 0"),
        (ExpandError::ArithmeticRecursionLimit, "expression recursion level exceeded"),
    ];
    for (error, text) in cases {
        assert_eq!(error.message(), text);
        assert_eq!(error.clone(), error);
    }
}

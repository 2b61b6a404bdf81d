//! Parameter expansion syntax.

use conch::parameter::{
    parse_parameter_expansion, NullMode, ParamExpansionError, ParameterExpansion,
    ParameterOperator,
};
use conch::token::{Parameter, SpecialParameter, Word, WordSegment};

fn word(segments: Vec<WordSegment>) -> Word {
    Word::new(segments)
}

fn lit(s: &str) -> Word {
    word(vec![WordSegment::Literal(s.into())])
}

fn name(s: &str) -> Parameter {
    Parameter::Name(s.into())
}

#[test]
fn length_of_bare_name() {
    assert_eq!(
        parse_parameter_expansion("#x", false).unwrap(),
        ParameterExpansion {
            parameter: name("x"),
            operator: ParameterOperator::Length,
        }
    );
}

#[test]
fn length_of_special_hash_via_doubled_hash() {
    assert_eq!(
        parse_parameter_expansion("##", false).unwrap(),
        ParameterExpansion {
            parameter: Parameter::Special(SpecialParameter::Hash),
            operator: ParameterOperator::Length,
        }
    );
}

#[test]
fn length_of_positional() {
    assert_eq!(
        parse_parameter_expansion("#10", false).unwrap(),
        ParameterExpansion {
            parameter: Parameter::Positional(10),
            operator: ParameterOperator::Length,
        }
    );
}

#[test]
fn length_form_rejects_trailing_operator() {
    assert!(matches!(
        parse_parameter_expansion("#x#l", false),
        Err(ParamExpansionError::UnrecognizedOperator { .. })
    ));
    assert!(matches!(
        parse_parameter_expansion("#x:-def", false),
        Err(ParamExpansionError::UnrecognizedOperator { .. })
    ));
}

#[test]
fn length_of_special_dash() {
    assert_eq!(
        parse_parameter_expansion("#-", false).unwrap(),
        ParameterExpansion {
            parameter: Parameter::Special(SpecialParameter::Dash),
            operator: ParameterOperator::Length,
        }
    );
}

#[test]
fn hash_special_parameter_with_default_operator() {
    assert_eq!(
        parse_parameter_expansion("#-x", false).unwrap(),
        ParameterExpansion {
            parameter: Parameter::Special(SpecialParameter::Hash),
            operator: ParameterOperator::UseDefault {
                null_mode: NullMode::UnsetOnly,
                word: lit("x"),
            },
        }
    );
}

#[test]
fn use_default_colon_and_non_colon_forms() {
    assert_eq!(
        parse_parameter_expansion("x:-fallback", false).unwrap(),
        ParameterExpansion {
            parameter: name("x"),
            operator: ParameterOperator::UseDefault {
                null_mode: NullMode::UnsetOrNull,
                word: lit("fallback"),
            },
        }
    );
    assert_eq!(
        parse_parameter_expansion("x-fallback", false).unwrap(),
        ParameterExpansion {
            parameter: name("x"),
            operator: ParameterOperator::UseDefault {
                null_mode: NullMode::UnsetOnly,
                word: lit("fallback"),
            },
        }
    );
}

#[test]
fn empty_word_is_valid() {
    assert_eq!(
        parse_parameter_expansion("x:-", false).unwrap(),
        ParameterExpansion {
            parameter: name("x"),
            operator: ParameterOperator::UseDefault {
                null_mode: NullMode::UnsetOrNull,
                word: word(vec![]),
            },
        }
    );
}

#[test]
fn assign_default() {
    assert_eq!(
        parse_parameter_expansion("x:=fallback", false).unwrap(),
        ParameterExpansion {
            parameter: name("x"),
            operator: ParameterOperator::AssignDefault {
                null_mode: NullMode::UnsetOrNull,
                word: lit("fallback"),
            },
        }
    );
}

#[test]
fn error_if_unset_or_null() {
    assert_eq!(
        parse_parameter_expansion("x:?required", false).unwrap(),
        ParameterExpansion {
            parameter: name("x"),
            operator: ParameterOperator::ErrorIfUnsetOrNull {
                null_mode: NullMode::UnsetOrNull,
                word: lit("required"),
            },
        }
    );
}

#[test]
fn use_alternative() {
    assert_eq!(
        parse_parameter_expansion("x:+alt", false).unwrap(),
        ParameterExpansion {
            parameter: name("x"),
            operator: ParameterOperator::UseAlternative {
                null_mode: NullMode::UnsetOrNull,
                word: lit("alt"),
            },
        }
    );
}

#[test]
fn remove_prefix_smallest_and_greedy() {
    assert_eq!(
        parse_parameter_expansion("x#*/", false).unwrap(),
        ParameterExpansion {
            parameter: name("x"),
            operator: ParameterOperator::RemovePrefix {
                greedy: false,
                pattern: lit("*/"),
            },
        }
    );
    assert_eq!(
        parse_parameter_expansion("x##*/", false).unwrap(),
        ParameterExpansion {
            parameter: name("x"),
            operator: ParameterOperator::RemovePrefix {
                greedy: true,
                pattern: lit("*/"),
            },
        }
    );
}

#[test]
fn remove_suffix_smallest_and_greedy() {
    assert_eq!(
        parse_parameter_expansion("x%.*", false).unwrap(),
        ParameterExpansion {
            parameter: name("x"),
            operator: ParameterOperator::RemoveSuffix {
                greedy: false,
                pattern: lit(".*"),
            },
        }
    );
    assert_eq!(
        parse_parameter_expansion("x%%.*", false).unwrap(),
        ParameterExpansion {
            parameter: name("x"),
            operator: ParameterOperator::RemoveSuffix {
                greedy: true,
                pattern: lit(".*"),
            },
        }
    );
}

#[test]
fn operand_word_can_contain_nested_expansion() {
    assert_eq!(
        parse_parameter_expansion("x:-$OTHER", false).unwrap(),
        ParameterExpansion {
            parameter: name("x"),
            operator: ParameterOperator::UseDefault {
                null_mode: NullMode::UnsetOrNull,
                word: word(vec![WordSegment::Parameter(name("OTHER"))]),
            },
        }
    );
}

#[test]
fn operand_word_does_not_split_on_unescaped_space_at_parse_time() {
    assert_eq!(
        parse_parameter_expansion("x:-a b", false).unwrap(),
        ParameterExpansion {
            parameter: name("x"),
            operator: ParameterOperator::UseDefault {
                null_mode: NullMode::UnsetOrNull,
                word: lit("a b"),
            },
        }
    );
}

#[test]
fn unquoted_context_single_quote_in_operand_really_quotes() {
    assert_eq!(
        parse_parameter_expansion("x:-'a b' c", false).unwrap(),
        ParameterExpansion {
            parameter: name("x"),
            operator: ParameterOperator::UseDefault {
                null_mode: NullMode::UnsetOrNull,
                word: word(vec![
                    WordSegment::SingleQuoted("a b".into()),
                    WordSegment::Literal(" c".into()),
                ]),
            },
        }
    );
}

#[test]
fn double_quoted_context_single_quote_in_operand_is_literal() {
    assert_eq!(
        parse_parameter_expansion("x:-'a b'", true).unwrap(),
        ParameterExpansion {
            parameter: name("x"),
            operator: ParameterOperator::UseDefault {
                null_mode: NullMode::UnsetOrNull,
                word: lit("'a b'"),
            },
        }
    );
}

#[test]
fn double_quoted_context_nested_double_quote_still_quotes() {
    assert_eq!(
        parse_parameter_expansion("x:-\"y\"", true).unwrap(),
        ParameterExpansion {
            parameter: name("x"),
            operator: ParameterOperator::UseDefault {
                null_mode: NullMode::UnsetOrNull,
                word: word(vec![WordSegment::DoubleQuoted(vec![WordSegment::Literal(
                    "y".into()
                )])]),
            },
        }
    );
}

#[test]
fn pattern_operand_preserves_glob_metacharacters_for_the_evaluator() {
    assert_eq!(
        parse_parameter_expansion("path##*/", false).unwrap(),
        ParameterExpansion {
            parameter: name("path"),
            operator: ParameterOperator::RemovePrefix {
                greedy: true,
                pattern: lit("*/"),
            },
        }
    );
}

#[test]
fn empty_body_is_invalid_parameter() {
    assert_eq!(
        parse_parameter_expansion("", false),
        Err(ParamExpansionError::InvalidParameter {
            body: String::new()
        })
    );
}

#[test]
fn unrecognized_operator_is_flagged_not_guessed() {
    assert!(matches!(
        parse_parameter_expansion("x/foo/bar", false),
        Err(ParamExpansionError::UnrecognizedOperator { .. })
    ));
}

#[test]
fn bare_trailing_colon_is_unrecognized() {
    assert!(matches!(
        parse_parameter_expansion("x:", false),
        Err(ParamExpansionError::UnrecognizedOperator { .. })
    ));
}

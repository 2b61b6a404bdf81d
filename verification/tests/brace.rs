//! Brace expansion.

use conch::brace::brace_expand;
use conch::token::{Parameter, Word, WordSegment};

fn lit(text: &str) -> Word {
    Word::new(vec![WordSegment::Literal(text.to_string())])
}

fn texts(words: &[Word]) -> Vec<String> {
    words
        .iter()
        .map(|w| {
            w.segments
                .iter()
                .map(|s| match s {
                    WordSegment::Literal(t) => t.clone(),
                    _ => panic!("unexpected non-literal segment in test"),
                })
                .collect()
        })
        .collect()
}

#[test]
fn no_braces_is_unchanged() {
    assert_eq!(texts(&brace_expand(&lit("hello"))), vec!["hello"]);
}

#[test]
fn brace_without_comma_or_range_stays_literal() {
    assert_eq!(texts(&brace_expand(&lit("{foo}"))), vec!["{foo}"]);
}

#[test]
fn simple_comma_list() {
    assert_eq!(texts(&brace_expand(&lit("{a,b,c}"))), vec!["a", "b", "c"]);
}

#[test]
fn comma_list_with_prefix_and_suffix() {
    assert_eq!(
        texts(&brace_expand(&lit("pre{a,b}post"))),
        vec!["preapost", "prebpost"]
    );
}

#[test]
fn numeric_range_ascending() {
    assert_eq!(
        texts(&brace_expand(&lit("{1..5}"))),
        vec!["1", "2", "3", "4", "5"]
    );
}

#[test]
fn numeric_range_descending() {
    assert_eq!(
        texts(&brace_expand(&lit("{5..1}"))),
        vec!["5", "4", "3", "2", "1"]
    );
}

#[test]
fn numeric_range_with_step() {
    assert_eq!(
        texts(&brace_expand(&lit("{0..10..2}"))),
        vec!["0", "2", "4", "6", "8", "10"]
    );
}

#[test]
fn alpha_range() {
    assert_eq!(
        texts(&brace_expand(&lit("{a..e}"))),
        vec!["a", "b", "c", "d", "e"]
    );
}

#[test]
fn chained_groups_produce_cross_product() {
    let mut result = texts(&brace_expand(&lit("{a,b}{1,2}")));
    result.sort();
    assert_eq!(result, vec!["a1", "a2", "b1", "b2"]);
}

#[test]
fn nested_groups() {
    let mut result = texts(&brace_expand(&lit("{a,{b,c}}")));
    result.sort();
    assert_eq!(result, vec!["a", "b", "c"]);
}

#[test]
fn non_literal_segments_pass_through_untouched() {
    let word = Word::new(vec![
        WordSegment::Parameter(Parameter::Name("X".to_string())),
        WordSegment::Literal("{a,b}".to_string()),
    ]);
    let result = brace_expand(&word);
    assert_eq!(result.len(), 2);
    assert!(matches!(result[0].segments[0], WordSegment::Parameter(_)));
}

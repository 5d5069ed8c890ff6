use std::rc::Rc;

use mago_analysis::artifacts::{get_expression_range, AnalysisArtifacts};
use mago_analysis::context::block::{BlockContext, ScopeContext};
use mago_analysis::expression::arithmetic::{divide_literals, power_of_literals};
use mago_analysis::expression::variable::{
    find_similar_variable_names, generate_confusable_character_note, is_global_variable_name,
};
use mago_analysis::span::Span;
use mago_analysis::text::{contains_byte_pair, text_less};

#[test]
fn similar_names_sorted_by_distance_then_name() {
    let mut c: BlockContext<i32> = BlockContext::new(ScopeContext { function_like: None, is_static: false });
    for k in ["$foo", "$food", "$fo", "$bar", "$fooo", "$f", "$completely_different", ""] {
        c.locals.insert(k.to_string(), 0);
    }
    let r = find_similar_variable_names(&c, "$foo");
    // distance 1: $fo, $food, $fooo (name order); distance 2: $f; distance 3:
    // $bar; "$foo" itself is at 0 and the long name too far.
    assert_eq!(r, vec!["$fo".to_string(), "$food".to_string(), "$fooo".to_string(), "$f".to_string(), "$bar".to_string()]);
}

#[test]
fn similar_names_counts_characters() {
    let mut c: BlockContext<i32> = BlockContext::new(ScopeContext { function_like: None, is_static: false });
    c.locals.insert("$café".to_string(), 0);
    c.locals.insert("$cafe".to_string(), 0);
    let r = find_similar_variable_names(&c, "$cafè");
    assert_eq!(r, vec!["$cafe".to_string(), "$café".to_string()]);
}

#[test]
fn text_order_and_search() {
    assert!(text_less("a", "b"));
    assert!(text_less("a", "ab"));
    assert!(!text_less("ab", "a"));
    assert!(!text_less("a", "a"));
    assert!(text_less("z", "é"));
    assert!(contains_byte_pair("$a->b", b'-', b'>'));
    assert!(!contains_byte_pair("$a-b>", b'-', b'>'));
    assert!(contains_byte_pair("A::B", b':', b':'));
    assert!(!contains_byte_pair(":", b':', b':'));
}

#[test]
fn expression_types_by_range() {
    let mut a: AnalysisArtifacts<&str> = AnalysisArtifacts::new();
    let s = Span::new(1, 4, 9);
    assert_eq!(get_expression_range(&s), (4, 9));
    assert_eq!(a.get_expression_type(&s), None);
    a.set_expression_type(&s, "int");
    assert_eq!(a.get_expression_type(&s), Some(&"int"));
    a.set_expression_type(&s, "string");
    assert_eq!(a.get_expression_type(&s), Some(&"string"));
    let t = Span::new(2, 4, 10);
    a.set_rc_expression_type(&t, Rc::new("bool"));
    assert_eq!(a.get_rc_expression_type(&t).map(|r| **r), Some("bool"));
    assert_eq!(a.get_expression_type(&Span::new(3, 4, 9)), Some(&"string"));
    assert!(a.inferred_return_types.is_empty());
    assert!(a.if_true_assertions.get((4, 9)).is_none());
    assert!(a.if_false_assertions.get((4, 9)).is_none());
}

#[test]
fn plain_names_get_no_confusable_note() {
    assert_eq!(generate_confusable_character_note("$foo"), None);
    assert_eq!(generate_confusable_character_note("$a_b1"), None);
    assert_eq!(generate_confusable_character_note("$my-var"), None);
    assert_eq!(generate_confusable_character_note(""), None);
    // the first character is not looked at
    assert_eq!(generate_confusable_character_note("\u{0430}bc"), None);
}

#[test]
fn accented_name_gets_note_without_examples() {
    assert_eq!(
        generate_confusable_character_note("$café"),
        Some(
            "Variable name `$café` contains non-standard ASCII alphanumeric characters. Please verify all characters are intended."
                .to_string()
        )
    );
    assert_eq!(
        generate_confusable_character_note("$x€"),
        Some(
            "Variable name `$x€` contains non-standard ASCII alphanumeric characters. Please verify all characters are intended."
                .to_string()
        )
    );
}

#[test]
fn cyrillic_and_greek_letters_are_named() {
    assert_eq!(
        generate_confusable_character_note("$\u{0430}bc"),
        Some(
            "Variable name `$\u{0430}bc` contains non-standard ASCII alphanumeric characters. For example, it might contain 'а' (Cyrillic 'a'). Please verify all characters are intended."
                .to_string()
        )
    );
    assert_eq!(
        generate_confusable_character_note("$f\u{03BF}\u{0430}"),
        Some(
            "Variable name `$f\u{03BF}\u{0430}` contains non-standard ASCII alphanumeric characters. For example, it might contain 'ο' (Greek 'o') or 'а' (Cyrillic 'a'). Please verify all characters are intended."
                .to_string()
        )
    );
}

#[test]
fn known_global_variable_names() {
    for n in ["$argv", "$argc", "$http_response_header", "$GLOBALS", "$_COOKIE", "$_GET", "$_POST", "$_REQUEST", "$_SERVER", "$_ENV", "$_FILES", "$_SESSION"] {
        assert!(is_global_variable_name(n));
    }
    assert!(!is_global_variable_name("$_get"));
    assert!(!is_global_variable_name("$foo"));
    assert!(!is_global_variable_name("$GLOBALS2"));
    assert!(!is_global_variable_name(""));
}

#[test]
fn exact_division_of_literals() {
    assert_eq!(divide_literals(12, 4), Some(3));
    assert_eq!(divide_literals(-12, 4), Some(-3));
    assert_eq!(divide_literals(12, -5), None);
    assert_eq!(divide_literals(7, 0), None);
    assert_eq!(divide_literals(0, 7), Some(0));
    assert_eq!(divide_literals(i64::MIN, 2), Some(i64::MIN / 2));
}

#[test]
fn powers_of_literals() {
    assert_eq!(power_of_literals(2, 10), Some(1024));
    assert_eq!(power_of_literals(-3, 3), Some(-27));
    assert_eq!(power_of_literals(2, 62), Some(1 << 62));
    assert_eq!(power_of_literals(2, 63), None);
    assert_eq!(power_of_literals(-2, 63), Some(i64::MIN));
    assert_eq!(power_of_literals(5, -1), None);
    assert_eq!(power_of_literals(7, 0), Some(1));
    assert_eq!(power_of_literals(0, 0), Some(1));
    assert_eq!(power_of_literals(-1, 3), Some(-1));
    assert_eq!(power_of_literals(1, 1 << 40), None);
    assert_eq!(power_of_literals(1, u32::MAX as i64), Some(1));
}

#[test]
fn ascii_punctuation_gets_no_note() {
    assert_eq!(generate_confusable_character_note("$a-b"), None);
}

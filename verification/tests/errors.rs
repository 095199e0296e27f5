use yggdrasil::errors::{
    enumerate_names, parsing_error_text, strip_line_breaks, visualize_whitespace, ErrorKind,
    InputLocation, LineColLocation, YggdrasilError,
};
use yggdrasil::position::Position;
use yggdrasil::span::TextSpan;

#[allow(non_camel_case_types)]
#[derive(Clone, Copy, Debug, PartialEq, Eq)]
enum Rule {
    open_paren,
    closed_paren,
    comma,
}

fn names(v: &[&str]) -> Vec<String> {
    v.iter().map(|s| s.to_string()).collect()
}

fn parsing(positives: Vec<Rule>, negatives: Vec<Rule>) -> YggdrasilError<Rule> {
    YggdrasilError::new_from_offset(ErrorKind::ParsingError { positives, negatives }, Position::from_start(""))
}

#[test]
fn message_with_both_clauses() {
    assert_eq!(
        parsing_error_text(&names(&["X", "Y", "Z"]), &names(&["A", "B"])),
        "unexpected A or B; expected X, Y, or Z"
    );
}

#[test]
fn message_with_one_clause() {
    assert_eq!(parsing_error_text(&names(&["X"]), &names(&[])), "expected X");
    assert_eq!(parsing_error_text(&names(&[]), &names(&["A", "B", "C", "D"])), "unexpected A, B, C, or D");
}

#[test]
fn message_without_rules() {
    assert_eq!(parsing_error_text(&names(&[]), &names(&[])), "unknown parsing error");
}

#[test]
fn enumeration_of_names() {
    assert_eq!(enumerate_names(&names(&["a"])), "a");
    assert_eq!(enumerate_names(&names(&["a", "b"])), "a or b");
    assert_eq!(enumerate_names(&names(&["a", "b", "c"])), "a, b, or c");
}

#[test]
fn renamed_rules_make_a_custom_error() {
    let error = parsing(vec![Rule::open_paren], vec![Rule::closed_paren]).renamed_rules(|rule| match *rule {
        Rule::open_paren => "(".to_owned(),
        Rule::closed_paren => "closed paren".to_owned(),
        Rule::comma => ",".to_owned(),
    });
    match &error.variant {
        ErrorKind::CustomError { message } => assert_eq!(message, "unexpected closed paren; expected ("),
        _ => panic!("not a custom error"),
    }
    assert_eq!(error.message(), "unexpected closed paren; expected (");
    assert_eq!(error.to_text(), "unexpected closed paren; expected (");
}

#[test]
fn renamed_rules_leave_other_errors() {
    let span = TextSpan::new("abc", 0, 1).unwrap();
    let error: YggdrasilError<Rule> = YggdrasilError::custom_error("boom", span);
    let error = error.renamed_rules(|_| "never".to_owned());
    assert_eq!(error.message(), "boom");
    let error = YggdrasilError::invalid_node(Rule::comma, span).renamed_rules(|_| "never".to_owned());
    assert!(matches!(error.variant, ErrorKind::InvalidNode { expect: Rule::comma }));
}

#[test]
fn default_messages_use_the_debug_form() {
    let error = parsing(vec![Rule::open_paren, Rule::comma], vec![]);
    assert_eq!(error.message(), "expected open_paren or comma");
    assert_eq!(error.to_text(), "parsing error: expected open_paren or comma");
    let span = TextSpan::new("abc", 0, 1).unwrap();
    assert_eq!(YggdrasilError::invalid_node(Rule::comma, span).message(), "invalid node, expected node comma");
    assert_eq!(YggdrasilError::missing_rule(Rule::comma, span).message(), "invalid node, expected node comma");
    let tag: YggdrasilError<Rule> = YggdrasilError::missing_tag("lhs".to_owned(), span);
    assert_eq!(tag.message(), "invalid tag, expected tag lhs");
}

#[test]
fn path_is_kept() {
    let error = parsing(vec![], vec![]);
    assert_eq!(error.path(), None);
    let error = error.with_path("file.rs");
    assert_eq!(error.path(), Some("file.rs"));
}

#[test]
fn error_at_an_offset_keeps_its_line() {
    let pos = Position::new("ab\ncd\nef", 4).unwrap();
    let error: YggdrasilError<Rule> = YggdrasilError::new_from_offset(ErrorKind::CustomError { message: "m".into() }, pos);
    assert_eq!(error.location, InputLocation::Pos(4));
    assert_eq!(error.line(), "cd");
    assert_eq!(error.continued_line(), None);
}

#[test]
fn error_at_a_line_break_shows_it() {
    let pos = Position::new("a\r\nb", 1).unwrap();
    let error: YggdrasilError<Rule> = YggdrasilError::new_from_offset(ErrorKind::CustomError { message: "m".into() }, pos);
    assert_eq!(error.line(), "a\u{240D}");
    let pos = Position::new("a\r\nb", 0).unwrap();
    let error: YggdrasilError<Rule> = YggdrasilError::new_from_offset(ErrorKind::CustomError { message: "m".into() }, pos);
    assert_eq!(error.line(), "a");
}

#[test]
fn error_over_a_span_keeps_first_and_last_line() {
    let span = TextSpan::new("ab\ncd\nef", 1, 7).unwrap();
    let error: YggdrasilError<Rule> = YggdrasilError::new_from_span(ErrorKind::CustomError { message: "m".into() }, span);
    assert_eq!(error.location, InputLocation::Span((1, 7)));
    assert_eq!(error.line(), "b");
    assert_eq!(error.continued_line(), Some("e"));
    let span = TextSpan::new("ab\ncd\nef", 0, 2).unwrap();
    let error: YggdrasilError<Rule> = YggdrasilError::new_from_span(ErrorKind::CustomError { message: "m".into() }, span);
    assert_eq!(error.line(), "ab");
    assert_eq!(error.continued_line(), None);
}

#[test]
fn error_over_a_span_that_ends_in_a_line_break() {
    let span = TextSpan::new("ab\ncd", 0, 3).unwrap();
    let error: YggdrasilError<Rule> = YggdrasilError::new_from_span(ErrorKind::CustomError { message: "m".into() }, span);
    assert_eq!(error.line(), "ab");
    assert_eq!(error.continued_line(), Some(""));
}

#[test]
fn whitespace_is_made_visible() {
    assert_eq!(visualize_whitespace("a\r\nb"), "a\u{240D}\u{240A}b");
    assert_eq!(visualize_whitespace("ab"), "ab");
    assert_eq!(strip_line_breaks("a\r\nb\n"), "ab");
}

#[test]
fn line_and_column_locations() {
    let text = "ab\ncd";
    assert_eq!(LineColLocation::from_position(Position::new(text, 4).unwrap()), LineColLocation::Pos((2, 2)));
    assert_eq!(
        LineColLocation::from_span(TextSpan::new(text, 1, 4).unwrap()),
        LineColLocation::Span((1, 2), (2, 2))
    );
}

#[test]
fn rules_are_enumerated_as_they_are_named() {
    let name = |r: &Rule| format!("<{:?}>", r);
    assert_eq!(YggdrasilError::enumerate(&vec![Rule::comma], name), "<comma>");
    assert_eq!(YggdrasilError::enumerate(&vec![Rule::comma, Rule::open_paren], name), "<comma> or <open_paren>");
    assert_eq!(
        YggdrasilError::enumerate(&vec![Rule::comma, Rule::open_paren, Rule::closed_paren], name),
        "<comma>, <open_paren>, or <closed_paren>"
    );
}

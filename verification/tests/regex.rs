use yggdrasil::ir::regex::{strip_padding, upper_hex, YggdrasilRegex};
use yggdrasil::state::State;

#[derive(Clone, Copy, Debug, PartialEq, Eq)]
enum Rule {
    E,
}

#[test]
fn new_regex_has_no_tables() {
    let re = YggdrasilRegex::new("[a-z]+", 3, 9);
    assert_eq!(re.raw(), "[a-z]+");
    assert_eq!(re.span(), (3, 9));
    assert!(re.forward_le().is_empty());
    assert!(re.reverse_be().is_empty());
    assert_eq!(re.pattern(), "^([a-z]+)");
}

#[test]
fn build_fills_the_four_tables() {
    let mut re = YggdrasilRegex::new("[a-z]+", 0, 6);
    assert!(re.build().is_ok());
    assert!(!re.forward_le().is_empty());
    assert!(!re.reverse_le().is_empty());
    assert_eq!(re.forward_le().len(), re.forward_be().len());
    assert_eq!(re.reverse_le().len(), re.reverse_be().len());
    assert_ne!(re.forward_le(), re.forward_be());
    assert_eq!(re.raw(), "[a-z]+");
}

#[test]
fn build_rejects_a_broken_pattern() {
    let mut re = YggdrasilRegex::new("[a-", 2, 5);
    let err = re.build().unwrap_err();
    assert_eq!((err.span_start, err.span_end), (2, 5));
    assert!(!err.message.is_empty());
    assert!(re.forward_le().is_empty());
    assert!(YggdrasilRegex::new("(", 0, 1).built().is_err());
    assert!(YggdrasilRegex::parse("(").is_err());
}

#[test]
fn built_leaves_its_argument() {
    let re = YggdrasilRegex::new("a", 0, 1);
    let built = re.built().unwrap();
    assert!(re.forward_le().is_empty());
    assert!(!built.forward_le().is_empty());
    assert_eq!(built.raw(), "a");
}

#[test]
fn equal_tables_are_equal_regexes() {
    let a = YggdrasilRegex::new("[a-z]+", 0, 6).built().unwrap();
    let b = YggdrasilRegex::new("[a-z]+", 40, 46).built().unwrap();
    let c = YggdrasilRegex::new("[A-Z]+", 0, 6).built().unwrap();
    assert!(a == b);
    assert!(a.same_tables(&b));
    assert!(!a.same_model(&b));
    assert!(a != c);
    assert_eq!(a.forward_le(), b.forward_le());
}

#[test]
fn constant_names_follow_the_tables() {
    let a = YggdrasilRegex::parse("[a-z]+").unwrap();
    let b = YggdrasilRegex::parse("[a-z]+").unwrap();
    let c = YggdrasilRegex::parse("[A-Z]+").unwrap();
    assert_eq!(a.constant_name(), b.constant_name());
    assert_ne!(a.constant_name(), c.constant_name());
    let name = a.constant_name();
    assert!(name.starts_with("REGEX_"));
    let digits = &name["REGEX_".len()..];
    assert!(!digits.is_empty() && digits.len() <= 16);
    assert!(digits.chars().all(|c| c.is_ascii_digit() || ('A'..='F').contains(&c)));
    assert!(digits == "0" || !digits.starts_with('0'));
}

#[test]
fn hexadecimal_digits() {
    assert_eq!(upper_hex(0), "0");
    assert_eq!(upper_hex(10), "A");
    assert_eq!(upper_hex(255), "FF");
    assert_eq!(upper_hex(0xDEADBEEF), "DEADBEEF");
    assert_eq!(upper_hex(u64::MAX), "FFFFFFFFFFFFFFFF");
}

#[test]
fn padding_is_stripped() {
    assert_eq!(strip_padding(&vec![0, 0, 7, 8], 2), vec![7, 8]);
    assert_eq!(strip_padding(&vec![7, 8], 0), vec![7, 8]);
    assert_eq!(strip_padding(&vec![7, 8], 2), Vec::<u8>::new());
    assert_eq!(strip_padding(&vec![7, 8], 3), Vec::<u8>::new());
}

#[test]
fn match_end_is_in_bytes() {
    let re = YggdrasilRegex::new("[0-9]+", 0, 6);
    assert_eq!(re.match_end("42abc"), Some(2));
    assert_eq!(re.match_end("abc"), None);
    assert_eq!(re.match_end(""), None);
    let re = YggdrasilRegex::new("\u{e9}+", 0, 3);
    assert_eq!(re.match_end("\u{e9}\u{e9}x"), Some(4));
    assert_eq!(YggdrasilRegex::new("(", 0, 1).match_end("("), None);
}

#[test]
fn regex_matches_the_empty_text_only_when_nullable() {
    assert_eq!(YggdrasilRegex::new("[0-9]*", 0, 6).match_end(""), Some(0));
    assert_eq!(YggdrasilRegex::new("[0-9]+", 0, 6).match_end(""), None);
}

#[test]
fn choice_with_tags() {
    let num = YggdrasilRegex::new("[0-9]+", 0, 6);
    let id = YggdrasilRegex::new("[a-z]+", 0, 6);
    let parse = |text: &'static str| {
        yggdrasil::state::state(text, |s: State<'_, Rule>| {
            s.choice(
                |s| s.tag("Num", |s| s.rule(Rule::E, |s| s.match_regex(&num))),
                |s| s.tag("Id", |s| s.rule(Rule::E, |s| s.match_regex(&id))),
            )
        })
    };
    let tree = parse("42").unwrap();
    assert_eq!(tree.pairs()[0].as_node_tag(), Some("Num"));
    assert_eq!(tree.pairs()[0].as_str(), "42");
    let tree = parse("abc").unwrap();
    assert_eq!(tree.pairs()[0].as_node_tag(), Some("Id"));
    assert!(parse("?").is_err());
}

#[test]
fn accept_moves_to_boundaries_only() {
    let s: State<'_, Rule> = State::new("\u{e9}x");
    let s = s.accept(Some(1)).unwrap_err();
    let s = s.accept(None).unwrap_err();
    let s = s.accept(Some(9)).unwrap_err();
    assert_eq!(s.get_position().pos(), 0);
    let s = s.accept(Some(2)).unwrap();
    assert_eq!(s.get_position().pos(), 2);
    let s = s.accept(Some(0)).unwrap();
    assert_eq!(s.get_position().pos(), 2);
}

#[test]
fn regex_as_text_is_quoted_and_escaped() {
    assert_eq!(YggdrasilRegex::new("[a-z]+", 0, 6).to_text(), "\"^([a-z]+)\"");
    assert_eq!(YggdrasilRegex::new("\\d\"x", 0, 4).to_text(), "\"^(\\\\d\\\"x)\"");
    assert_eq!(YggdrasilRegex::new("", 0, 0).to_text(), "\"^()\"");
}

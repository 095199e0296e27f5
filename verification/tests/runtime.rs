use yggdrasil::errors::{ErrorKind, InputLocation};
use yggdrasil::position::Position;
use yggdrasil::span::TextSpan;
use yggdrasil::state::{state, Atomicity, Either, State};

#[derive(Clone, Copy, Debug, PartialEq, Eq)]
enum Rule {
    A,
    B,
    P,
    Ws,
    LitA,
    LitB,
    Eoi,
}

type PState<'i> = State<'i, Rule>;

fn skip_ws(s: PState<'_>) -> Either<PState<'_>> {
    if s.get_atomicity() == Atomicity::NonAtomic {
        s.repeat(|s| s.match_char_by(|c| c.is_whitespace()))
    } else {
        Ok(s)
    }
}

fn rule_p(s: PState<'_>) -> Either<PState<'_>> {
    s.rule(Rule::P, |s| {
        s.sequence(|s| {
            s.rule(Rule::LitA, |s| s.match_string("a"))
                .and_then(skip_ws)
                .and_then(|s| s.rule(Rule::LitB, |s| s.match_string("b")))
        })
    })
}

#[test]
fn position_moves_by_bytes() {
    let mut p = Position::from_start("h\u{e9}llo");
    assert!(p.match_char('h'));
    assert_eq!(p.pos(), 1);
    assert!(p.match_char('\u{e9}'));
    assert_eq!(p.pos(), 3);
    assert!(!p.match_char('x'));
    assert_eq!(p.pos(), 3);
    assert!(p.match_string("llo"));
    assert!(p.at_end());
}

#[test]
fn position_is_on_code_point_boundaries_only() {
    assert!(Position::new("h\u{e9}", 0).is_some());
    assert!(Position::new("h\u{e9}", 1).is_some());
    assert!(Position::new("h\u{e9}", 2).is_none());
    assert!(Position::new("h\u{e9}", 3).is_some());
    assert!(Position::new("h\u{e9}", 4).is_none());
}

#[test]
fn position_skips_saturate() {
    let mut p = Position::from_start("a\u{e9}b");
    assert!(p.skip(2));
    assert_eq!(p.pos(), 3);
    assert!(!p.skip(5));
    assert_eq!(p.pos(), 4);
    assert!(p.skip_back(1));
    assert_eq!(p.pos(), 3);
    assert!(!p.skip_back(7));
    assert_eq!(p.pos(), 0);
    assert!(p.at_start());
}

#[test]
fn matchers_leave_the_cursor_on_a_miss() {
    let mut p = Position::from_start("abc");
    assert!(!p.match_string("abd"));
    assert_eq!(p.pos(), 0);
    assert!(!p.match_char_range('b', 'z'));
    assert_eq!(p.pos(), 0);
    assert!(p.match_char_range('a', 'a'));
    assert!(p.match_char_by(|c| c == 'b'));
    assert!(!p.match_char_by(|c| c == 'b'));
    assert_eq!(p.pos(), 2);
    assert!(!p.match_string("cd"));
    assert!(p.match_string(""));
    assert_eq!(p.pos(), 2);
}

#[test]
fn line_and_column_count_line_feeds() {
    let text = "ab\ncd\r\nef";
    assert_eq!(Position::new(text, 0).unwrap().line_column(), (1, 1));
    assert_eq!(Position::new(text, 2).unwrap().line_column(), (1, 3));
    assert_eq!(Position::new(text, 3).unwrap().line_column(), (2, 1));
    assert_eq!(Position::new(text, 7).unwrap().line_column(), (3, 1));
    assert_eq!(Position::new(text, 9).unwrap().line_column(), (3, 3));
}

#[test]
fn crlf_and_lf_give_the_same_line() {
    let lf = "a\nb\nc";
    let crlf = "a\r\nb\r\nc";
    let at_lf = Position::new(lf, lf.len()).unwrap().line_column();
    let at_crlf = Position::new(crlf, crlf.len()).unwrap().line_column();
    assert_eq!(at_lf.0, 3);
    assert_eq!(at_crlf.0, 3);
}

#[test]
fn line_of_is_the_line_without_its_line_feed() {
    let text = "ab\ncd\nef";
    assert_eq!(Position::new(text, 4).unwrap().line_of(), "cd");
    assert_eq!(Position::new(text, 2).unwrap().line_of(), "ab");
    assert_eq!(Position::new(text, 3).unwrap().line_of(), "cd");
    assert_eq!(Position::new(text, 8).unwrap().line_of(), "ef");
    assert_eq!(Position::from_start("").line_of(), "");
}

#[test]
fn span_text_and_lines() {
    let text = "ab\ncd\nef";
    let span = TextSpan::new(text, 1, 7).unwrap();
    assert_eq!(span.as_str(), "b\ncd\ne");
    assert_eq!(span.lines(), vec!["b", "cd", "e"]);
    assert_eq!(TextSpan::new(text, 0, 3).unwrap().lines(), vec!["ab", ""]);
    assert_eq!(TextSpan::new(text, 2, 2).unwrap().lines(), vec![""]);
    assert!(TextSpan::new(text, 3, 2).is_none());
    assert!(TextSpan::new(text, 0, 9).is_none());
    let (a, b) = span.split();
    assert_eq!((a.pos(), b.pos()), (1, 7));
    assert_eq!((span.start(), span.end()), (1, 7));
}

#[test]
fn minimal_rule_matches() {
    let tree = state("x", |s: PState<'_>| s.rule(Rule::A, |s| s.match_string("x"))).unwrap();
    let pairs = tree.pairs();
    assert_eq!(pairs.len(), 1);
    assert_eq!(pairs[0].as_rule(), Rule::A);
    assert_eq!(pairs[0].as_str(), "x");
    let span = pairs[0].as_span();
    assert_eq!((span.start(), span.end()), (0, 1));
    assert!(!pairs[0].has_child());
    assert_eq!(pairs[0].tokens().len(), 2);
    assert_eq!(pairs[0].get_input(), "x");
}

#[test]
fn minimal_rule_fails() {
    let err = state("y", |s: PState<'_>| s.rule(Rule::A, |s| s.match_string("x"))).unwrap_err();
    assert_eq!(err.location, InputLocation::Pos(0));
    assert_eq!(err.line(), "y");
    match err.variant {
        ErrorKind::ParsingError { positives, negatives } => {
            assert_eq!(positives, vec![Rule::A]);
            assert!(negatives.is_empty());
        }
        _ => panic!("not a parsing error"),
    }
}

#[test]
fn empty_input_matches_the_empty_rule_only() {
    assert!(state("", |s: PState<'_>| s.rule(Rule::A, |s| s.optional(|s| s.match_string("x")))).is_ok());
    let err = state("", |s: PState<'_>| s.rule(Rule::A, |s| s.match_string("x"))).unwrap_err();
    match err.variant {
        ErrorKind::ParsingError { positives, .. } => assert_eq!(positives, vec![Rule::A]),
        _ => panic!("not a parsing error"),
    }
    assert!(state("", |s: PState<'_>| s.rule(Rule::Eoi, |s| s.end_of_input())).is_ok());
    assert!(state("x", |s: PState<'_>| s.rule(Rule::Eoi, |s| s.end_of_input())).is_err());
}

#[test]
fn ignored_whitespace_between_terms() {
    let tree = state("a   b", rule_p).unwrap();
    let top = tree.pairs();
    assert_eq!(top.len(), 1);
    assert_eq!(top[0].as_rule(), Rule::P);
    assert_eq!(top[0].as_str(), "a   b");
    let leaves: Vec<&str> = top[0].duplicate().into_inner().pairs().iter().map(|p| p.as_str()).collect();
    assert_eq!(leaves, vec!["a", "b"]);
    assert!(state("ab", rule_p).is_ok());
}

#[test]
fn missing_term_fails_at_the_furthest_offset() {
    let err = state("a", rule_p).unwrap_err();
    assert_eq!(err.location, InputLocation::Pos(1));
    match err.variant {
        ErrorKind::ParsingError { positives, negatives } => {
            assert_eq!(positives, vec![Rule::LitB]);
            assert!(negatives.is_empty());
        }
        _ => panic!("not a parsing error"),
    }
}

#[test]
fn atomic_rule_ignores_nothing() {
    fn atomic_p(s: PState<'_>) -> Either<PState<'_>> {
        s.atomic(Atomicity::Atomic, rule_p)
    }
    assert!(state("a   b", atomic_p).is_err());
    assert!(state("ab", atomic_p).is_ok());
}

#[test]
fn compound_atomic_rule_has_no_children() {
    let tree = state("ab", |s: PState<'_>| {
        s.rule(Rule::P, |s| {
            s.atomic(Atomicity::CompoundAtomic, |s| {
                s.rule(Rule::LitA, |s| s.match_string("a")).and_then(|s| s.rule(Rule::LitB, |s| s.match_string("b")))
            })
        })
    })
    .unwrap();
    let top = tree.pairs();
    assert_eq!(top.len(), 1);
    assert_eq!(top[0].as_str(), "ab");
    assert!(!top[0].has_child());
}

#[test]
fn optional_never_fails_and_restores() {
    let s: PState<'_> = State::new("ab");
    let s = s.optional(|s| s.rule(Rule::A, |s| s.match_string("a").and_then(|s| s.match_string("x")))).unwrap();
    assert_eq!(s.get_position().pos(), 0);
    assert_eq!(s.get_tokens().len(), 0);
    let s = s.optional(|s| s.match_string("ab")).unwrap();
    assert_eq!(s.get_position().pos(), 2);
}

#[test]
fn repeat_stops_where_nothing_is_consumed() {
    let s: PState<'_> = State::new("aaab");
    let s = s.repeat(|s| s.match_char('a')).unwrap();
    assert_eq!(s.get_position().pos(), 3);
    let s = s.repeat(|s| s.optional(|s| s.match_char('x'))).unwrap();
    assert_eq!(s.get_position().pos(), 3);
    let s = s.repeat(|s| s.match_char('b').and_then(|s| s.match_char('c'))).unwrap_err();
    assert_eq!(s.get_position().pos(), 3);
}

#[test]
fn repeat_min_max_counts() {
    let run = |text: &'static str, min: usize, max: usize| {
        let s: PState<'_> = State::new(text);
        s.repeat_min_max(min, max, |s| s.match_char('a')).map(|s| s.get_position().pos()).map_err(|s| s.get_position().pos())
    };
    assert_eq!(run("aaaa", 1, 3), Ok(3));
    assert_eq!(run("aa", 1, 3), Ok(2));
    assert_eq!(run("b", 1, 3), Err(0));
    assert_eq!(run("b", 0, 3), Ok(0));
    assert_eq!(run("ab", 2, 3), Err(0));
}

#[test]
fn lookahead_consumes_nothing() {
    let s: PState<'_> = State::new("ab");
    let s = s.lookahead(true, |s| s.rule(Rule::A, |s| s.match_string("ab"))).unwrap();
    assert_eq!(s.get_position().pos(), 0);
    assert_eq!(s.get_tokens().len(), 0);
    assert!(!s.in_lookahead());
    let s = s.lookahead(false, |s| s.match_string("x")).unwrap();
    assert_eq!(s.get_position().pos(), 0);
    let s = s.lookahead(false, |s| s.match_string("a")).unwrap_err();
    assert_eq!(s.get_position().pos(), 0);
    let s = s.lookahead(true, |s| s.match_string("x")).unwrap_err();
    assert_eq!(s.get_position().pos(), 0);
}

#[test]
fn negative_lookahead_records_negatives() {
    let err = state("a", |s: PState<'_>| s.lookahead(false, |s| s.rule(Rule::A, |s| s.match_string("b")))
        .and_then(|s| s.rule(Rule::B, |s| s.match_string("x"))))
    .unwrap_err();
    match err.variant {
        ErrorKind::ParsingError { positives, negatives } => {
            assert_eq!(negatives, vec![Rule::A]);
            assert_eq!(positives, vec![Rule::B]);
        }
        _ => panic!("not a parsing error"),
    }
}

#[test]
fn choice_takes_the_first_match() {
    let s: PState<'_> = State::new("b");
    let s = s.choice(|s| s.rule(Rule::A, |s| s.match_string("a")), |s| s.rule(Rule::B, |s| s.match_string("b"))).unwrap();
    assert_eq!(s.get_position().pos(), 1);
    assert_eq!(s.get_tokens().len(), 2);
    let s: PState<'_> = State::new("c");
    let s = s.choice(|s| s.rule(Rule::A, |s| s.match_string("a")), |s| s.rule(Rule::B, |s| s.match_string("b"))).unwrap_err();
    assert_eq!(s.get_position().pos(), 0);
    assert_eq!(s.positive_attempts(), &vec![Rule::A, Rule::B]);
    assert_eq!(s.furthest_offset(), 0);
}

#[test]
fn tags_travel_to_the_end_marker() {
    let tree = state("x", |s: PState<'_>| s.tag("name", |s| s.rule(Rule::A, |s| s.match_string("x")))).unwrap();
    let pairs = tree.pairs();
    assert_eq!(pairs[0].as_node_tag(), Some("name"));
    let tree = state("x", |s: PState<'_>| s.rule(Rule::A, |s| s.match_string("x"))).unwrap();
    assert_eq!(tree.pairs()[0].as_node_tag(), None);
}

#[test]
fn furthest_failure_never_moves_back() {
    let s: PState<'_> = State::new("abc");
    let s = s.match_string("ab").unwrap();
    assert_eq!(s.furthest_offset(), 2);
    let s = s.rule(Rule::A, |s| s.match_string("x")).unwrap_err();
    assert_eq!(s.furthest_offset(), 2);
    assert_eq!(s.positive_attempts(), &vec![Rule::A]);
    let s = s.match_string("c").unwrap();
    assert_eq!(s.furthest_offset(), 3);
    assert!(s.positive_attempts().is_empty());
    let s = s.lookahead(true, |s| s.match_string("")).unwrap();
    assert_eq!(s.furthest_offset(), 3);
}

#[test]
fn state_skip_and_input_ends() {
    let s: PState<'_> = State::new("ab");
    let s = s.start_of_input().unwrap();
    let s = s.skip(3).unwrap_err();
    assert_eq!(s.get_position().pos(), 0);
    let s = s.skip(2).unwrap();
    assert!(s.start_of_input().is_err());
    let s: PState<'_> = State::new("ab");
    let s = s.skip(2).unwrap().end_of_input().unwrap();
    assert_eq!(s.get_position().pos(), 2);
}

#[test]
fn pairs_are_nested_and_ordered() {
    let tree = state("ab", |s: PState<'_>| {
        s.rule(Rule::P, |s| {
            s.rule(Rule::A, |s| s.match_string("a")).and_then(|s| s.rule(Rule::B, |s| s.match_string("b")))
        })
    })
    .unwrap();
    let top = tree.pairs();
    assert_eq!(top.len(), 1);
    let tokens = top[0].tokens();
    assert_eq!(tokens.len(), 6);
    let offsets: Vec<usize> = tokens.iter().map(|t| t.input_offset()).collect();
    assert_eq!(offsets, vec![0, 0, 1, 1, 2, 2]);
    let inner = top[0].duplicate().into_inner();
    assert!(!inner.is_empty());
    let kids = inner.pairs();
    assert_eq!(kids.iter().map(|p| p.as_rule()).collect::<Vec<_>>(), vec![Rule::A, Rule::B]);
    assert_eq!(kids[1].pair(), 4);
    assert_eq!(kids[1].pos(3), 1);
}

#[test]
fn leaves_make_up_the_input_where_they_tile_it() {
    let tree = state("ab", |s: PState<'_>| {
        s.rule(Rule::P, |s| {
            s.rule(Rule::A, |s| s.match_string("a")).and_then(|s| s.rule(Rule::B, |s| s.match_string("b")))
        })
    })
    .unwrap();
    assert_eq!(tree.leaves_text(), "ab");
    assert_eq!(tree.get_input(), "ab");
    let tree = state("a b", rule_p).unwrap();
    assert_eq!(tree.leaves_text(), "ab");
    let _ = Rule::Ws;
}

#[test]
fn single_pair_as_a_tree() {
    let tree = state("x", |s: PState<'_>| s.rule(Rule::A, |s| s.match_string("x"))).unwrap();
    let pair = tree.peek().unwrap();
    let one = yggdrasil::pair::TokenTree::single(pair);
    assert_eq!(one.pairs().len(), 1);
}

#[test]
fn pairs_as_text() {
    let tree = state("abcdefghijkl", |s: PState<'_>| {
        s.rule(Rule::P, |s| {
            s.rule(Rule::A, |s| s.match_string("abcdefghij"))
                .and_then(|s| s.rule(Rule::B, |s| s.rule(Rule::LitB, |s| s.match_string("kl"))))
        })
    })
    .unwrap();
    let top = tree.peek().unwrap();
    assert_eq!(top.to_text(), "P(0, 12, [A(0, 10), B(10, 12, [LitB(10, 12)])])");
    let kids = top.duplicate().into_inner().pairs();
    assert_eq!(kids[0].to_text(), "A(0, 10)");
    assert_eq!(kids[1].to_text_with(|r| format!("<{:?}>", r).to_lowercase()), "<b>(10, 12, [<litb>(10, 12)])");
}

#[test]
fn numbers_in_decimal() {
    assert_eq!(yggdrasil::strings::decimal_text(0), "0");
    assert_eq!(yggdrasil::strings::decimal_text(7), "7");
    assert_eq!(yggdrasil::strings::decimal_text(10), "10");
    assert_eq!(yggdrasil::strings::decimal_text(9_876_543_210), "9876543210");
    assert_eq!(yggdrasil::strings::decimal_text(usize::MAX), usize::MAX.to_string());
}

#[test]
fn attempts_of_a_state_can_be_read() {
    let s: PState<'_> = State::new("a");
    let s = s.lookahead(false, |s| s.rule(Rule::A, |s| s.match_string("b"))).unwrap();
    assert_eq!(s.negative_attempts(), &vec![Rule::A]);
    assert!(s.positive_attempts().is_empty());
    assert_eq!(s.furthest_offset(), 0);
    let s = s.rule(Rule::B, |s| s.match_string("x")).unwrap_err();
    assert_eq!(s.positive_attempts(), &vec![Rule::B]);
    assert_eq!(s.negative_attempts(), &vec![Rule::A]);
}

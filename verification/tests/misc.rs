use yggdrasil::bootstrap::errors::{NodeRange, YGGError};
use yggdrasil::bootstrap::marker::{OffsetRange, YGGMarker};
use yggdrasil::bootstrap::parse::{
    eos, grammar, grammar_statement, import, import_statement, program, program_entry_point,
    statement, empty_statement, Rule, EOI, SKIP, SOI, SYMBOL,
};
use yggdrasil::bootstrap::syntax_kind::SyntaxKind;
use yggdrasil::codegen::{sealed_final, sealed_skip, sealed_unicode, PegBuffer, RustCodegen};
use yggdrasil::completion::{build_command, complete_macros, CompletionItemKind, DocumentString, InsertTextFormat};
use yggdrasil::config::{SupportedMode, YccConfig};
use yggdrasil::cst::{ConcreteNode, NodeType};
use yggdrasil::results::{IError, IErrorKind};
use yggdrasil::state::{state, State};
use yggdrasil::str2ast::{ChoiceHelper, ParseState};

#[derive(Clone, Copy, Debug, PartialEq, Eq)]
enum JsonNode {
    Object,
    Array,
    Other,
}

impl From<i16> for JsonNode {
    fn from(n: i16) -> Self {
        match n {
            1 => JsonNode::Object,
            2 => JsonNode::Array,
            _ => JsonNode::Other,
        }
    }
}

impl From<JsonNode> for i16 {
    fn from(n: JsonNode) -> i16 {
        match n {
            JsonNode::Object => 1,
            JsonNode::Array => 2,
            JsonNode::Other => 0,
        }
    }
}

impl NodeType for JsonNode {}

#[test]
fn concrete_nodes() {
    let node = ConcreteNode::new(7).with_kind(JsonNode::Object);
    assert!(node.is_a(&[JsonNode::Object]));
    assert!(node.is_a(&[JsonNode::Array, JsonNode::Object]));
    assert!(!node.is_a(&[JsonNode::Array]));
    assert!(!node.is_a::<JsonNode>(&[]));
    assert_eq!(node.get_kind::<JsonNode>(), JsonNode::Object);
    assert_eq!(node.get_range(), 7..7);
    let mut node = node.with_range(2, 9).with_children(vec![ConcreteNode::new(0)]);
    assert_eq!(node.get_range(), 2..9);
    node.add_child(ConcreteNode::new(1).with_kind(JsonNode::Array));
    assert_eq!(node.get_children().len(), 2);
    assert_eq!(node.get_children()[1].get_kind::<JsonNode>(), JsonNode::Array);
    node.set_kind(JsonNode::Array);
    node.set_children(vec![]);
    assert!(node.get_children().is_empty());
    assert!(node.is_a(&[JsonNode::Array]));
}

#[test]
fn ranges_keep_the_low_bits() {
    let mut node = ConcreteNode::new(0);
    node.set_range(1, 2);
    assert_eq!(node.get_range(), 1..2);
    if usize::BITS > 32 {
        let big = (1usize << 32) + 5;
        node.set_range(big, big + 1);
        assert_eq!(node.get_range(), 5..6);
    }
}

#[test]
fn peg_buffer_writes_symbols() {
    let mut b = PegBuffer::new();
    b.write_start();
    b.tag("name");
    b.tag("");
    b.char_token('a');
    b.char_token('\'');
    b.write_end();
    b.semicolon();
    assert_eq!(b.buffer, "(name:'a'\"'\");\n\n");
}

#[test]
fn rust_buffer_names_rules() {
    let mut b = RustCodegen { buffer: String::new(), rule_prefix: "ygg".into(), rule_suffix: "node".into() };
    assert_eq!(b.get_class_name("expr_list"), "YggExprListNode");
    assert_eq!(b.get_parse_name("ExprList"), "consume_ygg_expr_list");
    b.write_start();
    b.tag("t");
    b.char_token('x');
    b.char_token('\'');
    b.write_end();
    b.semicolon();
    assert_eq!(b.buffer, "(t:'x'\"'\");\n\n");
    assert_eq!(b.rule_prefix, "ygg");
}

#[test]
fn sealed_functions_are_written() {
    let mut text = String::from("// head");
    sealed_unicode(&mut text, "XID_START");
    assert_eq!(
        text,
        "// head\n#[inline]\nfn XID_START(state: RuleState) -> RuleResult {\n    state.match_char_by(pest::unicode::XID_START)\n}\n\n"
    );
    let mut text = String::new();
    sealed_skip(&mut text);
    assert_eq!(text, "\n\n\n");
    let mut text = String::new();
    sealed_final(&mut text);
    assert!(text.starts_with("\n#[inline]\npub fn ANY(state: RuleState) -> RuleResult {\n    state.skip(1)\n}\n"));
    assert!(text.contains("pub fn EOI(state: RuleState) -> RuleResult {\n    state.rule(Rule::EOI, |state| state.end_of_input())\n}"));
    assert!(text.ends_with("pub fn SOI(state: RuleState) -> RuleResult {\n    state.start_of_input()\n}\n\n"));
}

#[test]
fn completion_items() {
    let doc = DocumentString { cmd: "ignore!".into(), short: "ignores rules".into(), long: "# ignore".into() };
    let item = build_command(&doc);
    assert_eq!(item.label, "ignore!");
    assert_eq!(item.kind, Some(CompletionItemKind::Function));
    assert_eq!(item.detail.as_deref(), Some("ignores rules"));
    assert_eq!(item.documentation.as_deref(), Some("# ignore"));
    assert_eq!(item.insert_text.as_deref(), Some("ignore!($1)"));
    assert_eq!(item.insert_text_format, Some(InsertTextFormat::Snippet));
    let items = complete_macros(&vec![doc.clone(), DocumentString { cmd: "x".into(), short: "".into(), long: "".into() }]);
    assert_eq!(items.len(), 2);
    assert_eq!(items[1].insert_text.as_deref(), Some("x($1)"));
    assert!(complete_macros(&vec![]).is_empty());
}

#[test]
fn settings() {
    let c = YccConfig::default();
    assert_eq!(c.language, SupportedMode::Rust);
    assert!(c.export.is_empty() && c.includes.is_empty() && c.excludes.is_empty());
    assert_eq!(YccConfig::format(Some("json5")).as_deref(), Some("json5"));
    assert_eq!(YccConfig::format(Some("json")).as_deref(), Some("json"));
    assert_eq!(YccConfig::format(None).as_deref(), Some("json"));
    assert_eq!(YccConfig::format(Some("toml")), None);
}

#[test]
fn syntax_kinds_by_number() {
    assert_eq!(SyntaxKind::from_kind_id(1), Some(SyntaxKind::sym_id));
    assert_eq!(SyntaxKind::from_kind_id(44), Some(SyntaxKind::sym_program));
    assert_eq!(SyntaxKind::from_kind_id(72), Some(SyntaxKind::aux_sym_regex_range_repeat1));
    assert_eq!(SyntaxKind::from_kind_id(0), None);
    assert_eq!(SyntaxKind::from_kind_id(73), None);
    assert_eq!(SyntaxKind::anon_sym_TILDE.kind_id(), 21);
    for id in 1..=72u16 {
        assert_eq!(SyntaxKind::from_kind_id(id).unwrap().kind_id(), id);
    }
}

#[test]
fn bootstrap_errors() {
    let range = NodeRange { start_byte: 1, end_byte: 2, start_row: 0, start_column: 1, end_row: 0, end_column: 2 };
    assert!(matches!(YGGError::node_missing("id", range), YGGError::NodeMissing { name, range: r } if name == "id" && r == range));
    assert!(matches!(YGGError::init_fail(), YGGError::InitializationFailed));
    assert!(matches!(YGGError::text_decode_failed("bad"), YGGError::TextDecodeFailed { error } if error == "bad"));
    assert!(matches!(YGGError::info_missing("name"), YGGError::InfoMissing { text } if text == "name"));
    assert!(matches!(YGGError::language_error("v"), YGGError::LanguageError { error } if error == "v"));
}

fn run<'i>(text: &'i str, f: fn(State<'i, Rule>) -> Result<State<'i, Rule>, State<'i, Rule>>) -> Result<usize, usize> {
    f(State::new(text)).map(|s| s.get_position().pos()).map_err(|s| s.get_position().pos())
}

#[test]
fn statements_of_the_head() {
    assert_eq!(run("grammar! x", grammar), Ok(8));
    assert_eq!(run("import! x", import), Ok(7));
    assert_eq!(run("grammar", grammar), Err(0));
    assert_eq!(run(";", |s| eos(s, false)), Ok(1));
    assert_eq!(run(";", empty_statement), Ok(1));
    assert_eq!(run("x", empty_statement), Err(0));
    assert_eq!(run("grammar!;", grammar_statement), Ok(8));
    assert_eq!(run("import!", import_statement), Ok(7));
    assert_eq!(run("grammar!;x", statement), Ok(9));
    assert_eq!(run("import!x", statement), Ok(7));
    assert_eq!(run(";;", statement), Ok(1));
    assert_eq!(run("x", statement), Err(0));
    assert_eq!(run("x", SKIP), Ok(0));
    assert_eq!(run("x", SOI), Ok(0));
    assert_eq!(run("", EOI), Ok(0));
    assert_eq!(run("x", EOI), Err(0));
}

#[test]
fn programs() {
    assert_eq!(run("grammar!;import!;;x", program), Ok(18));
    assert_eq!(run("x", program), Ok(0));
    assert_eq!(run("", program), Ok(0));
    assert_eq!(run("grammar!;import!", program_entry_point), Ok(16));
    assert_eq!(run("grammar!;x", program_entry_point), Err(0));
    assert_eq!(run("", program_entry_point), Ok(0));
    let tree = state("grammar!;import!", program).unwrap();
    let top = tree.pairs();
    assert_eq!(top.len(), 1);
    assert_eq!(top[0].as_rule(), Rule::program);
    let kinds: Vec<Rule> = top[0].duplicate().into_inner().pairs().iter().map(|p| p.as_rule()).collect();
    assert_eq!(kinds, vec![Rule::statement, Rule::statement]);
}

#[test]
fn symbols() {
    assert_eq!(run("abc_1 x", SYMBOL), Ok(5));
    assert_eq!(run("\u{e9}t\u{e9}", SYMBOL), Ok(5));
    assert_eq!(run("1abc", SYMBOL), Err(0));
    assert_eq!(run("", SYMBOL), Err(0));
    assert_eq!(run("a", SYMBOL), Ok(1));
}

#[test]
fn marked_program() {
    let mut marker = YGGMarker {};
    let node = marker.parse_program("grammar!;import!").unwrap();
    assert_eq!(node.text, "grammar!;import!");
    assert_eq!(node.mark, None);
    assert_eq!(node.position, OffsetRange { start: 0, end: 16 });
    assert_eq!(node.children.len(), 2);
    assert_eq!(node.children[0].text, "grammar!;");
    assert_eq!(node.children[0].mark, Some("statement"));
    assert_eq!(node.children[1].position, OffsetRange { start: 9, end: 16 });
    assert!(node.children[1].children.is_empty());
    let node = marker.parse_program("x").unwrap();
    assert_eq!(node.text, "");
    assert!(node.children.is_empty());
}

#[test]
fn marking_pairs() {
    let marker = YGGMarker {};
    let tree = state("  ", |s: State<'_, Rule>| {
        s.rule(Rule::WHITESPACE, |s| s.rule(Rule::WHITE_SPACE, |s| s.match_string(" ")).and_then(|s| s.rule(Rule::NEWLINE, |s| s.match_string(" "))))
    })
    .unwrap();
    let mut nodes = vec![];
    marker.split_whitespace(&mut nodes, tree.peek().unwrap()).unwrap();
    assert_eq!(nodes.len(), 2);
    assert_eq!(nodes[1].position, OffsetRange { start: 1, end: 2 });
    let leaf = marker.atomic(tree.peek().unwrap(), Some("ws")).unwrap();
    assert_eq!((leaf.text, leaf.mark), ("  ", Some("ws")));
    let tree = state(";", |s: State<'_, Rule>| s.rule(Rule::WHITESPACE, |s| s.rule(Rule::eos, |s| s.match_string(";")))).unwrap();
    let mut nodes = vec![];
    assert!(marker.split_whitespace(&mut nodes, tree.peek().unwrap()).is_err());
    let tree = state("; ", |s: State<'_, Rule>| {
        s.rule(Rule::statement, |s| {
            s.rule(Rule::eos, |s| s.match_string(";"))
                .and_then(|s| s.rule(Rule::WHITESPACE, |s| s.rule(Rule::COMMENT, |s| s.match_string(" "))))
        })
    })
    .unwrap();
    let node = marker.mark_statement(tree.peek().unwrap(), None).unwrap();
    assert_eq!(node.children.len(), 1);
    assert_eq!(node.children[0].text, " ");
    let node = marker.mark_program(tree.peek().unwrap(), Some("p")).unwrap();
    assert_eq!(node.mark, Some("p"));
    assert_eq!(node.children.len(), 1);
}

#[test]
fn value_parsers() {
    let s = ParseState::new("a\u{e9}bc");
    let (s, a) = s.match_char('a').unwrap();
    assert_eq!((a, s.start_offset), ('a', 1));
    assert_eq!(s.residual(), "\u{e9}bc");
    let (s, e) = s.match_char_range('\u{e0}', '\u{ef}').unwrap();
    assert_eq!((e, s.start_offset), ('\u{e9}', 3));
    let err = s.duplicate().match_char('x').unwrap_err();
    assert!(matches!(err.kind, IErrorKind::Character('x')));
    let err = s.duplicate().match_char_range('x', 'z').unwrap_err();
    assert!(matches!(err.kind, IErrorKind::CharacterRange('x', 'z')));
    let err = s.duplicate().match_string("bd").unwrap_err();
    assert!(matches!(&err.kind, IErrorKind::Text(t) if t == "bd"));
    let (s, text) = s.match_string("bc").unwrap();
    assert_eq!((text, s.start_offset), ("bc", 5));
    let (s, none) = s.match_optional(|s| s.match_char('z')).unwrap();
    assert_eq!((none, s.start_offset), (None, 5));
    let (s, all) = ParseState::new("1234x").match_repeats(|s| s.match_char_range('0', '9')).unwrap();
    assert_eq!((all, s.start_offset), (vec!['1', '2', '3', '4'], 4));
    let (_, v) = s.finish(7).unwrap();
    assert_eq!(v, 7);
}

#[test]
fn choices_between_value_parsers() {
    let pick = |text: &'static str| {
        ParseState::new(text)
            .start_choice()
            .or_else(|s| s.match_char('a'))
            .or_else(|s| s.match_char('b'))
            .end_choice()
    };
    let (s, c) = pick("a").unwrap();
    assert_eq!((c, s.start_offset), ('a', 1));
    let (_, c) = pick("b").unwrap();
    assert_eq!(c, 'b');
    let err = pick("c").unwrap_err();
    assert!(matches!(err.kind, IErrorKind::Character('b')));
    let empty: ChoiceHelper<'_, char> = ChoiceHelper::new(ParseState::new("x"));
    assert!(matches!(empty.end_choice().unwrap_err().kind, IErrorKind::Uninitialized(_)));
}

#[test]
fn value_errors() {
    assert!(matches!(IError::excepted_character('c').kind, IErrorKind::Character('c')));
    assert!(matches!(IError::excepted_character_range('a', 'z').kind, IErrorKind::CharacterRange('a', 'z')));
    assert!(matches!(IError::excepted_string("s").kind, IErrorKind::Text(t) if t == "s"));
    assert!(matches!(IError::uninitialized("u").kind, IErrorKind::Uninitialized(t) if t == "u"));
    let mut s = ParseState::new("");
    s.set_error(IError::excepted_character('q'));
    assert!(matches!(s.get_error().kind, IErrorKind::Character('q')));
}

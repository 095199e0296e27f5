use yggdrasil::bootstrap::tree::{
    AnnotationNode, AtomicNode, BooleanNode, ClassStatementNode, ExpressionHardNode,
    ExpressionNode, ExpressionSoftNode, ExpressionTagNode, FunctionCallNode,
    GrammarStatementNode, GroupPairNode, GroupStatementNode, IdentifierNode, PrefixNode,
    RootNode, StatementNode, StringNode, SuffixNode, TermNode, TextNode, UnionBranchNode,
    UnionStatementNode,
};
use yggdrasil::builder::expression::{build_atomic, build_or, build_tag_node, build_term, trim};
use yggdrasil::builder::fault::{BuildFault, GrammarError};
use yggdrasil::builder::grammar::build_grammar;
use yggdrasil::builder::rule::{build_class, build_tag_branch, with_annotation};
use yggdrasil::errors::{ErrorKind, InputLocation};
use yggdrasil::ir::expression::{
    DataKind, ExpressionKind, ExpressionNode as Node, FunctionExpression, Operator,
    UnaryExpression,
};
use yggdrasil::ir::rule::{GrammarBody, GrammarRule, Symbol};

fn id(name: &str) -> IdentifierNode {
    IdentifierNode { text: name.to_owned(), start: 0, end: name.len() }
}

fn term(atomic: AtomicNode) -> TermNode {
    TermNode { prefix: vec![], atomic, suffix: vec![] }
}

fn string(text: &str) -> AtomicNode {
    AtomicNode::String(StringNode::String1(format!("\"{}\"", text)))
}

fn tag_node(terms: Vec<TermNode>) -> ExpressionTagNode {
    ExpressionTagNode { term: terms, start: 1, end: 2 }
}

fn soft(tags: Vec<ExpressionTagNode>) -> ExpressionSoftNode {
    ExpressionSoftNode { expression_tag: tags, start: 3, end: 4 }
}

fn hard(softs: Vec<ExpressionSoftNode>) -> ExpressionHardNode {
    ExpressionHardNode { expression_soft: softs, start: 5, end: 6 }
}

fn expr(hards: Vec<ExpressionHardNode>) -> ExpressionNode {
    ExpressionNode { expression_hard: hards, start: 7, end: 8 }
}

fn one(t: TermNode) -> ExpressionNode {
    expr(vec![hard(vec![soft(vec![tag_node(vec![t])])])])
}

fn class(name: &str, e: ExpressionNode, annotations: Vec<AnnotationNode>) -> StatementNode {
    StatementNode::ClassStatement(ClassStatementNode { annotations, name: id(name), expression: e, start: 10, end: 20 })
}

fn annotation(name: &str, args: &[&str]) -> AnnotationNode {
    AnnotationNode { name: name.to_owned(), args: args.iter().map(|s| s.to_string()).collect(), start: 30, end: 31 }
}

fn class_body(rule: &GrammarRule) -> Node {
    match &rule.body {
        GrammarBody::Class { term } => term.duplicate(),
        _ => panic!("not a class"),
    }
}

fn unary(base: Node, ops: Vec<Operator>) -> Node {
    Node::new(ExpressionKind::Unary(Box::new(UnaryExpression { base, ops })))
}

#[test]
fn trimming() {
    assert_eq!(trim("/a/b/", '/'), "a/b");
    assert_eq!(trim("''x'", '\''), "x");
    assert_eq!(trim("///", '/'), "");
    assert_eq!(trim("", '/'), "");
    assert_eq!(trim("abc", '/'), "abc");
}

#[test]
fn atomic_parts() {
    assert!(build_atomic(&string("x")).unwrap().same(&Node::text("x")));
    assert!(build_atomic(&AtomicNode::String(StringNode::String0("'y'".into()))).unwrap().same(&Node::text("y")));
    assert!(build_atomic(&AtomicNode::Identifier(id("r"))).unwrap().same(&Node::rule("r")));
    let truth = |b: bool| Node::new(ExpressionKind::Data(Box::new(DataKind::Boolean(b))));
    assert!(build_atomic(&AtomicNode::Boolean(BooleanNode::Boolean0)).unwrap().same(&truth(true)));
    assert!(build_atomic(&AtomicNode::Boolean(BooleanNode::Boolean1)).unwrap().same(&truth(false)));
    let inner = build_atomic(&AtomicNode::Atomic0(Box::new(one(term(string("x")))))).unwrap();
    assert!(inner.same(&Node::text("x")));
    let call = AtomicNode::FunctionCall(Box::new(FunctionCallNode { name: id("f"), args: vec![one(term(string("x")))] }));
    let expected = Node::new(ExpressionKind::Function(Box::new(FunctionExpression { name: "f".into(), args: vec![Node::text("x")] })));
    assert!(build_atomic(&call).unwrap().same(&expected));
}

#[test]
fn regex_literals_are_compiled() {
    let node = build_atomic(&AtomicNode::RegexEmbed(TextNode { text: "/[0-9]+/".into(), start: 4, end: 12 })).unwrap();
    match &node.kind {
        ExpressionKind::Data(d) => match &**d {
            DataKind::Regex(r) => {
                assert_eq!(r.raw(), "[0-9]+");
                assert_eq!(r.span(), (4, 12));
                assert!(!r.forward_le().is_empty());
            }
            _ => panic!("not a regex"),
        },
        _ => panic!("not a literal"),
    }
    let node = build_atomic(&AtomicNode::RegexRange(TextNode { text: "[a-z]".into(), start: 0, end: 5 })).unwrap();
    assert!(matches!(&node.kind, ExpressionKind::Data(_)));
    let err = build_atomic(&AtomicNode::RegexEmbed(TextNode { text: "/(/".into(), start: 4, end: 7 })).unwrap_err();
    assert!(matches!(err.fault, BuildFault::CustomError { .. }));
    assert_eq!((err.start, err.end), (4, 7));
}

#[test]
fn signs_become_operators() {
    let t = TermNode {
        prefix: vec![PrefixNode::Prefix0, PrefixNode::Prefix2, PrefixNode::Prefix1],
        atomic: string("x"),
        suffix: vec![SuffixNode::Suffix0, SuffixNode::Suffix1, SuffixNode::Suffix2],
    };
    let mut base = Node::text("x");
    base.remark = true;
    let expected = unary(
        base,
        vec![Operator::Optional, Operator::Repeats, Operator::Repeat1, Operator::Positive, Operator::Negative],
    );
    assert!(build_term(&t).unwrap().same(&expected));
    assert!(build_term(&term(string("x"))).unwrap().same(&Node::text("x")));
    let only_mark = TermNode { prefix: vec![PrefixNode::Prefix2], atomic: string("x"), suffix: vec![] };
    let mut marked = Node::text("x");
    marked.remark = true;
    assert!(build_term(&only_mark).unwrap().same(&marked));
}

#[test]
fn tags_are_lifted_from_the_left_term() {
    let node = build_tag_node(&tag_node(vec![term(AtomicNode::Identifier(id("lhs"))), term(string("x"))])).unwrap();
    let mut expected = Node::text("x");
    expected.tag = "lhs".into();
    assert!(node.same(&expected));
    let err = build_tag_node(&tag_node(vec![term(string("lhs")), term(string("x"))])).unwrap_err();
    assert!(matches!(err.fault, BuildFault::InvalidTag { .. }));
    assert_eq!((err.start, err.end), (1, 2));
    let err = build_tag_node(&tag_node(vec![])).unwrap_err();
    assert!(matches!(err.fault, BuildFault::CustomError { .. }));
    let err = build_tag_node(&tag_node(vec![term(string("a")), term(string("b")), term(string("c"))])).unwrap_err();
    assert!(matches!(err.fault, BuildFault::CustomError { .. }));
}

#[test]
fn tiers_of_an_expression() {
    let ab = hard(vec![soft(vec![tag_node(vec![term(string("a"))])]), soft(vec![tag_node(vec![term(string("b"))])])]);
    let c = hard(vec![soft(vec![tag_node(vec![term(string("c"))]), tag_node(vec![term(string("d"))])])]);
    let node = build_or(&expr(vec![ab, c])).unwrap();
    let expected = Node::choice(vec![
        Node::concat(vec![Node::text("a"), Node::text("b")]),
        Node::concat(vec![Node::text("c"), Node::text("d")]),
    ]);
    assert!(node.same(&expected));
}

#[test]
fn empty_tiers_are_errors() {
    let err = build_or(&expr(vec![])).unwrap_err();
    assert_eq!((err.start, err.end), (7, 8));
    let err = build_or(&expr(vec![hard(vec![])])).unwrap_err();
    assert_eq!((err.start, err.end), (5, 6));
    let err = build_or(&expr(vec![hard(vec![soft(vec![])])])).unwrap_err();
    assert_eq!((err.start, err.end), (3, 4));
    let first = build_or(&expr(vec![hard(vec![soft(vec![])]), hard(vec![])])).unwrap_err();
    assert_eq!((first.start, first.end), (3, 4));
}

#[test]
fn annotations_set_flags() {
    let rule = GrammarRule::class(Symbol::new("r", 0, 1), Node::text("x"), 0, 1);
    let rule = with_annotation(
        rule,
        &vec![
            annotation("inline", &[]),
            annotation("atomic", &[]),
            annotation("derive", &["eq", "hash", "nothing"]),
            annotation("unknown", &[]),
        ],
    );
    assert!(rule.auto_inline && rule.atomic_rule);
    assert!(!rule.auto_boxed && !rule.auto_capture && !rule.eliminate_unmarked && !rule.eliminate_unnamed);
    assert!(rule.derives.eq && !rule.derives.ord);
    assert_eq!(rule.derives.hash.as_deref(), Some("hash"));
    assert_eq!(rule.derives.debug, None);
    let rule = with_annotation(
        rule,
        &vec![annotation("boxed", &[]), annotation("capture", &[]), annotation("eliminate_unmarked", &[]), annotation("eliminate_unnamed", &[])],
    );
    assert!(rule.auto_boxed && rule.auto_capture && rule.eliminate_unmarked && rule.eliminate_unnamed);
}

#[test]
fn a_faulty_class_keeps_a_placeholder() {
    let mut errors: Vec<GrammarError> = vec![];
    let node = ClassStatementNode {
        annotations: vec![annotation("what", &[])],
        name: id("c"),
        expression: expr(vec![]),
        start: 10,
        end: 20,
    };
    let rule = build_class(&node, &mut errors);
    assert!(class_body(&rule).same(&Node::concat(vec![])));
    assert_eq!(rule.range, 10..20);
    assert_eq!(errors.len(), 2);
    assert!(matches!(errors[0].fault, BuildFault::CustomError { .. }));
    assert!(matches!(&errors[1].fault, BuildFault::InvalidTag { expect } if expect == "what"));
    assert_eq!((errors[1].start, errors[1].end), (30, 31));
}

#[test]
fn branches_of_a_union() {
    let branch = UnionBranchNode {
        branch_tag: Some(id("Num")),
        expression: hard(vec![soft(vec![tag_node(vec![term(string("1"))])])]),
    };
    let built = build_tag_branch(&branch).unwrap();
    assert_eq!(built.tag.as_ref().map(|s| s.name.as_str()), Some("Num"));
    assert!(built.expression.same(&Node::text("1")));
    let bad = UnionBranchNode { branch_tag: None, expression: hard(vec![]) };
    assert!(build_tag_branch(&bad).is_err());
}

#[test]
fn a_whole_grammar() {
    let root = RootNode {
        statement: vec![
            StatementNode::GrammarStatement(GrammarStatementNode { identifier: IdentifierNode { text: "g".into(), start: 9, end: 10 } }),
            class("A", one(term(string("x"))), vec![]),
            StatementNode::UnionStatement(UnionStatementNode {
                annotations: vec![annotation("boxed", &[])],
                name: id("E"),
                union_branch: vec![
                    UnionBranchNode { branch_tag: Some(id("Num")), expression: hard(vec![soft(vec![tag_node(vec![term(string("1"))])])]) },
                    UnionBranchNode { branch_tag: None, expression: hard(vec![]) },
                    UnionBranchNode { branch_tag: None, expression: hard(vec![soft(vec![tag_node(vec![term(string("2"))])])]) },
                ],
                start: 21,
                end: 40,
            }),
            StatementNode::GroupStatement(GroupStatementNode {
                annotations: vec![annotation("atomic", &[])],
                identifier: Some(id("Keys")),
                group_pair: vec![
                    GroupPairNode { identifier: id("K1"), atomic: string("k1"), start: 41, end: 45 },
                    GroupPairNode { identifier: id("A"), atomic: string("again"), start: 46, end: 50 },
                ],
            }),
            StatementNode::GroupStatement(GroupStatementNode {
                annotations: vec![],
                identifier: None,
                group_pair: vec![GroupPairNode { identifier: id("K2"), atomic: string("k2"), start: 51, end: 55 }],
            }),
        ],
    };
    let built = build_grammar(&root);
    let g = &built.grammar;
    assert!(g.is_grammar);
    assert_eq!(g.name.name, "g");
    assert_eq!(g.name.range, 9..10);
    let names: Vec<String> = (0..g.rules.rule_count()).map(|i| g.rules.rule_at(i).unwrap().name.name.clone()).collect();
    assert_eq!(names, vec!["A", "E", "K1", "K2"]);
    let a = g.rules.get("A").unwrap();
    assert!(class_body(a).same(&Node::text("again")));
    assert!(a.atomic_rule);
    assert_eq!(a.range, 46..50);
    let e = g.rules.get("E").unwrap();
    assert!(e.auto_boxed);
    match &e.body {
        GrammarBody::Union { branches } => {
            assert_eq!(branches.len(), 2);
            assert_eq!(branches[0].tag.as_ref().map(|s| s.name.as_str()), Some("Num"));
            assert!(branches[1].tag.is_none());
            assert!(branches[1].expression.same(&Node::text("2")));
        }
        _ => panic!("not a union"),
    }
    assert_eq!(g.token_sets.len(), 1);
    assert_eq!(g.token_sets[0].0, "Keys");
    let members: Vec<&str> = g.token_sets[0].1.iter().map(|s| s.name.as_str()).collect();
    assert_eq!(members, vec!["K1", "A"]);
    assert_eq!(built.errors.len(), 1);
    assert_eq!((built.errors[0].start, built.errors[0].end), (5, 6));
}

#[test]
fn an_empty_tree_is_an_unnamed_grammar() {
    let built = build_grammar(&RootNode { statement: vec![] });
    assert!(!built.grammar.is_grammar);
    assert_eq!(built.grammar.name.name, "");
    assert_eq!(built.grammar.rules.rule_count(), 0);
    assert!(built.errors.is_empty());
}

#[test]
fn faults_become_error_kinds() {
    let e = GrammarError::invalid_node("term", 1, 2);
    assert_eq!(e.location(), InputLocation::Span((1, 2)));
    assert!(matches!(e.into_kind(), ErrorKind::InvalidNode { expect } if expect == "term"));
    assert!(matches!(GrammarError::invalid_tag("t", 0, 0).into_kind(), ErrorKind::InvalidTag { expect } if expect == "t"));
    assert!(matches!(GrammarError::custom_error("m", 0, 0).into_kind(), ErrorKind::CustomError { message } if message == "m"));
}

#[test]
fn a_sound_grammar_is_compiled() {
    let root = RootNode {
        statement: vec![
            class("main", one(term(AtomicNode::Identifier(id("_x")))), vec![]),
            class("_x", one(term(string("x"))), vec![]),
            class("_lost", one(term(string("l"))), vec![]),
        ],
    };
    let out = yggdrasil::driver::compile(&root).ok().unwrap();
    assert_eq!(out.grammar.rules.rule_count(), 1);
    let main = out.grammar.rules.get("main").unwrap();
    assert!(class_body(main).same(&Node::text("x")));
    assert_eq!(out.diagnostics.len(), 2);
    assert!(out.diagnostics.iter().all(|d| !d.fatal));
}

#[test]
fn a_grammar_with_errors_is_rejected() {
    let root = RootNode { statement: vec![class("c", expr(vec![]), vec![])] };
    let rejected = yggdrasil::driver::compile(&root).err().unwrap();
    assert_eq!(rejected.errors.len(), 1);
    assert!(rejected.diagnostics.is_empty());
}

#[test]
fn a_rule_that_starts_with_itself_is_rejected() {
    let root = RootNode {
        statement: vec![class(
            "e",
            expr(vec![hard(vec![soft(vec![tag_node(vec![term(AtomicNode::Identifier(id("e")))]), tag_node(vec![term(string("+"))])])])]),
            vec![],
        )],
    };
    let rejected = yggdrasil::driver::compile(&root).err().unwrap();
    assert!(rejected.errors.is_empty());
    assert_eq!(rejected.diagnostics.len(), 1);
    assert_eq!(rejected.diagnostics[0].kind, yggdrasil::optimize::diagnostic::DiagnosticKind::LeftRecursion);
    assert_eq!(rejected.diagnostics[0].rule, "e");
    assert_eq!((rejected.diagnostics[0].start, rejected.diagnostics[0].end), (10, 20));
}

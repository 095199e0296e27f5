use yggdrasil::ir::expression::{
    ChoiceExpression, DataKind, ExpressionKind, ExpressionNode, FunctionExpression, Operator,
    UnaryExpression,
};
use yggdrasil::ir::grammar::GrammarInfo;
use yggdrasil::ir::rule::{GrammarBody, GrammarRule, RuleDerive, Symbol, UnionBranch};
use yggdrasil::optimize::diagnostic::DiagnosticKind;
use yggdrasil::optimize::left_recursion::{can_be_empty, find_left_recursion};
use yggdrasil::optimize::pass::{fuse_ops, rewrite, InlineRule, NodePass};
use yggdrasil::optimize::pipeline::{
    eliminate_dead_code, emit_function, fusion_rules, has_fatal, inline_rules, insert_ignore,
    optimize, refine_rules, remark_tags,
};
use yggdrasil::optimize::refine::{collapse, refine};

fn text(t: &str) -> ExpressionNode {
    ExpressionNode::text(t)
}

fn rule_ref(name: &str) -> ExpressionNode {
    ExpressionNode::rule(name)
}

fn tagged(mut e: ExpressionNode, tag: &str) -> ExpressionNode {
    e.tag = tag.to_owned();
    e
}

fn unary(base: ExpressionNode, ops: Vec<Operator>) -> ExpressionNode {
    ExpressionNode::new(ExpressionKind::Unary(Box::new(UnaryExpression { base, ops })))
}

fn class(name: &str, term: ExpressionNode) -> GrammarRule {
    GrammarRule::class(Symbol::new(name, 0, 0), term, 0, 0)
}

fn grammar(rules: Vec<GrammarRule>) -> GrammarInfo {
    let mut g = GrammarInfo::new();
    for r in rules {
        g.insert(r);
    }
    g
}

fn names(g: &GrammarInfo) -> Vec<String> {
    (0..g.rules.rule_count()).map(|i| g.rules.rule_at(i).unwrap().name.name.clone()).collect()
}

fn body(g: &GrammarInfo, name: &str) -> ExpressionNode {
    match &g.rules.get(name).unwrap().body {
        GrammarBody::Class { term } => term.duplicate(),
        _ => panic!("not a class"),
    }
}

#[test]
fn refine_flattens_nested_choices() {
    let e = ExpressionNode::choice(vec![
        text("a"),
        ExpressionNode::choice(vec![text("b"), ExpressionNode::choice(vec![text("c")])]),
        ExpressionNode::choice(vec![]),
    ]);
    let expected = ExpressionNode::choice(vec![text("a"), text("b"), text("c")]);
    assert!(refine(&e).same(&expected));
}

#[test]
fn refine_flattens_nested_sequences_but_not_across_kinds() {
    let e = ExpressionNode::concat(vec![
        ExpressionNode::concat(vec![text("a"), text("b")]),
        ExpressionNode::choice(vec![text("c"), text("d")]),
    ]);
    let expected = ExpressionNode::concat(vec![
        text("a"),
        text("b"),
        ExpressionNode::choice(vec![text("c"), text("d")]),
    ]);
    assert!(refine(&e).same(&expected));
}

#[test]
fn refine_keeps_tagged_groups() {
    let inner = tagged(ExpressionNode::choice(vec![text("b"), text("c")]), "t");
    let e = ExpressionNode::choice(vec![text("a"), inner.duplicate()]);
    assert!(refine(&e).same(&e));
    let single = tagged(ExpressionNode::concat(vec![text("a")]), "t");
    assert!(refine(&single).same(&single));
}

#[test]
fn refine_hoists_single_members() {
    let e = ExpressionNode::concat(vec![ExpressionNode::choice(vec![text("a")])]);
    assert!(refine(&e).same(&text("a")));
}

#[test]
fn refine_collapses_operator_runs() {
    let e = unary(unary(text("a"), vec![Operator::Repeats]), vec![Operator::Repeats]);
    assert!(refine(&e).same(&unary(text("a"), vec![Operator::Repeats])));
    assert_eq!(
        collapse(&vec![Operator::Optional, Operator::Optional, Operator::Negative, Operator::Negative]),
        vec![Operator::Optional, Operator::Negative, Operator::Negative]
    );
    assert!(refine(&unary(text("a"), vec![])).same(&text("a")));
}

#[test]
fn refine_is_idempotent() {
    let e = ExpressionNode::choice(vec![
        ExpressionNode::concat(vec![
            unary(unary(rule_ref("x"), vec![Operator::Optional]), vec![Operator::Optional, Operator::Repeat1]),
            ExpressionNode::concat(vec![text("b"), tagged(text("c"), "t")]),
        ]),
        ExpressionNode::choice(vec![ExpressionNode::concat(vec![text("d")])]),
        ExpressionNode::new(ExpressionKind::Function(Box::new(FunctionExpression {
            name: "f".to_owned(),
            args: vec![ExpressionNode::choice(vec![text("e")])],
        }))),
    ]);
    let once = refine(&e);
    let twice = refine(&once);
    assert!(once.same(&twice));
    assert!(!once.same(&e));
}

#[test]
fn structural_equality_looks_at_everything() {
    assert!(text("a").same(&text("a")));
    assert!(!text("a").same(&text("b")));
    assert!(!text("a").same(&tagged(text("a"), "t")));
    assert!(!text("a").same(&rule_ref("a")));
    let mut marked = text("a");
    marked.remark = true;
    assert!(!text("a").same(&marked));
    assert!(marked.duplicate().same(&marked));
}

#[test]
fn unary_adds_operators() {
    let e = ExpressionNode::unary(text("a"), Operator::Optional);
    assert!(e.same(&unary(text("a"), vec![Operator::Optional])));
    let e = ExpressionNode::unary(e, Operator::Repeats);
    assert!(e.same(&unary(text("a"), vec![Operator::Optional, Operator::Repeats])));
    let named = tagged(unary(text("a"), vec![Operator::Optional]), "t");
    let e = ExpressionNode::unary(named.duplicate(), Operator::Repeats);
    assert!(e.same(&unary(named.duplicate(), vec![Operator::Repeats])));
    let e = named.duplicate().add_operator(Operator::Repeats);
    assert!(e.same(&tagged(unary(text("a"), vec![Operator::Optional, Operator::Repeats]), "t")));
}

#[test]
fn operator_signs() {
    assert_eq!(Operator::prefix("!"), Operator::Negative);
    assert_eq!(Operator::prefix("&"), Operator::Positive);
    assert_eq!(Operator::prefix("^"), Operator::Remark);
    assert_eq!(Operator::prefix("*"), Operator::Recursive);
    assert_eq!(Operator::suffix("?"), Operator::Optional);
    assert_eq!(Operator::suffix("*"), Operator::Repeats);
    assert_eq!(Operator::suffix("+"), Operator::Repeat1);
}

#[test]
fn derived_names() {
    let mut d = RuleDerive::default();
    assert!(d.derived().is_empty());
    d.eq = true;
    assert_eq!(d.derived(), vec!["Eq".to_string()]);
}

#[test]
fn fusion_joins_texts_in_atomic_rules_only() {
    let term = ExpressionNode::concat(vec![text("a"), text("b"), rule_ref("x"), text("c"), text("d")]);
    let fused = rewrite(&NodePass::Fuse { atomic: true }, &term);
    assert!(fused.same(&ExpressionNode::concat(vec![text("ab"), rule_ref("x"), text("cd")])));
    let fused = rewrite(&NodePass::Fuse { atomic: false }, &term);
    assert!(fused.same(&term));
}

#[test]
fn fusion_joins_classes_and_operators() {
    let class_of = |k: DataKind| ExpressionNode::new(ExpressionKind::Data(Box::new(k)));
    let term = ExpressionNode::choice(vec![
        class_of(DataKind::Character('_')),
        class_of(DataKind::CharacterRange('a', 'z')),
        text("x"),
    ]);
    let fused = rewrite(&NodePass::Fuse { atomic: false }, &term);
    let expected = ExpressionNode::new(ExpressionKind::Choice(Box::new(ChoiceExpression {
        branches: vec![class_of(DataKind::CharacterSet(vec![('_', '_'), ('a', 'z')])), text("x")],
    })));
    assert!(fused.same(&expected));
    assert_eq!(fuse_ops(&vec![Operator::Repeats, Operator::Optional]), vec![Operator::Repeats]);
    assert_eq!(fuse_ops(&vec![Operator::Optional, Operator::Repeats]), vec![Operator::Repeats]);
    assert_eq!(fuse_ops(&vec![Operator::Optional, Operator::Optional]), vec![Operator::Optional]);
    assert_eq!(fuse_ops(&vec![Operator::Repeat1, Operator::Optional]), vec![Operator::Repeat1, Operator::Optional]);
}

#[test]
fn remark_strips_tags() {
    let mut kept = tagged(rule_ref("x"), "k");
    kept.remark = true;
    let term = tagged(ExpressionNode::concat(vec![tagged(rule_ref("y"), "t"), kept.duplicate(), tagged(text("z"), "s")]), "all");
    let out = rewrite(&NodePass::Remark { unmarked: true, unnamed: false }, &term);
    assert!(out.same(&ExpressionNode::concat(vec![rule_ref("y"), kept.duplicate(), text("z")])));
    let out = rewrite(&NodePass::Remark { unmarked: false, unnamed: true }, &term);
    assert!(out.same(&tagged(ExpressionNode::concat(vec![tagged(rule_ref("y"), "t"), kept.duplicate(), text("z")]), "all")));
    let out = rewrite(&NodePass::Remark { unmarked: false, unnamed: false }, &term);
    assert!(out.same(&term));
}

#[test]
fn inlining_replaces_references() {
    let rules = vec![InlineRule { name: "_d".to_owned(), body: text("0") }];
    let term = ExpressionNode::concat(vec![tagged(rule_ref("_d"), "n"), rule_ref("x"), rule_ref("_d")]);
    let out = rewrite(&NodePass::Inline { rules: &rules }, &term);
    assert!(out.same(&ExpressionNode::concat(vec![tagged(text("0"), "n"), rule_ref("x"), text("0")])));
}

#[test]
fn emit_lowers_known_functions() {
    let call = |name: &str| ExpressionNode::new(ExpressionKind::Function(Box::new(FunctionExpression { name: name.to_owned(), args: vec![] })));
    let out = rewrite(&NodePass::Emit, &ExpressionNode::concat(vec![call("ANY"), call("EOI"), call("NOPE")]));
    let any = ExpressionNode::new(ExpressionKind::Data(Box::new(DataKind::CharacterRange('\0', '\u{10FFFF}'))));
    assert!(out.same(&ExpressionNode::concat(vec![any, rule_ref("EOI"), call("NOPE")])));
    let g = grammar(vec![class("a", call("ASCII_DIGIT")), class("b", call("NOPE"))]);
    let out = emit_function(g);
    assert_eq!(out.diagnostics.len(), 1);
    assert_eq!(out.diagnostics[0].kind, DiagnosticKind::UnknownFunction);
    assert_eq!(out.diagnostics[0].rule, "b");
    assert!(out.diagnostics[0].fatal);
    assert!(has_fatal(&out.diagnostics));
}

#[test]
fn dead_code_is_taken_out() {
    let mut g = grammar(vec![
        class("main", rule_ref("_used")),
        class("_used", rule_ref("_deep")),
        class("_deep", text("x")),
        class("_unused", rule_ref("main")),
        class("_ws", text(" ")),
        class("_ext", text("e")),
    ]);
    g.ignores.push(Symbol::new("_ws", 0, 0));
    g.extensions.push(Symbol::new("_ext", 0, 0));
    let out = eliminate_dead_code(g);
    assert_eq!(names(&out.grammar), vec!["main", "_used", "_deep", "_ws", "_ext"]);
    assert_eq!(out.diagnostics.len(), 1);
    assert_eq!(out.diagnostics[0].kind, DiagnosticKind::UnusedRule);
    assert_eq!(out.diagnostics[0].rule, "_unused");
    assert!(!has_fatal(&out.diagnostics));
}

#[test]
fn inline_pass_keeps_recursive_candidates() {
    let mut flagged = class("digit", text("0"));
    flagged.auto_inline = true;
    let g = grammar(vec![
        class("main", ExpressionNode::concat(vec![rule_ref("digit"), rule_ref("_loop"), rule_ref("_leaf")])),
        flagged,
        class("_loop", ExpressionNode::concat(vec![text("("), rule_ref("_loop"), text(")")])),
        class("_leaf", text("l")),
    ]);
    let out = inline_rules(g);
    assert!(body(&out.grammar, "main").same(&ExpressionNode::concat(vec![text("0"), rule_ref("_loop"), text("l")])));
    assert_eq!(out.diagnostics.len(), 1);
    assert_eq!(out.diagnostics[0].kind, DiagnosticKind::InlineRefused);
    assert_eq!(out.diagnostics[0].rule, "_loop");
    assert_eq!(names(&out.grammar).len(), 4);
}

#[test]
fn ignores_go_between_terms_of_rules_that_are_not_atomic() {
    let mut atomic = class("atom", ExpressionNode::concat(vec![text("a"), text("b")]));
    atomic.atomic_rule = true;
    let mut g = grammar(vec![
        class("p", ExpressionNode::concat(vec![text("a"), text("b"), text("c")])),
        atomic,
        class("_ws", ExpressionNode::concat(vec![text(" "), text(" ")])),
    ]);
    g.ignores.push(Symbol::new("_ws", 0, 0));
    let out = insert_ignore(g);
    let marker = unary(rule_ref("_ws"), vec![Operator::Repeats]);
    let spaced = ExpressionNode::concat(vec![text("a"), marker.duplicate(), text("b"), marker.duplicate(), text("c")]);
    assert!(body(&out.grammar, "p").same(&spaced));
    assert!(body(&out.grammar, "atom").same(&ExpressionNode::concat(vec![text("a"), text("b")])));
    assert!(body(&out.grammar, "_ws").same(&ExpressionNode::concat(vec![text(" "), text(" ")])));
    let again = insert_ignore(out.grammar);
    assert!(body(&again.grammar, "p").same(&spaced));
}

#[test]
fn several_ignored_rules_make_a_choice() {
    let mut g = grammar(vec![class("p", ExpressionNode::concat(vec![text("a"), text("b")]))]);
    g.ignores.push(Symbol::new("ws", 0, 0));
    g.ignores.push(Symbol::new("comment", 0, 0));
    let out = insert_ignore(g);
    let marker = unary(ExpressionNode::choice(vec![rule_ref("ws"), rule_ref("comment")]), vec![Operator::Repeats]);
    assert!(body(&out.grammar, "p").same(&ExpressionNode::concat(vec![text("a"), marker, text("b")])));
}

#[test]
fn passes_change_the_rules_only() {
    let mut g = grammar(vec![class("p", ExpressionNode::choice(vec![ExpressionNode::choice(vec![text("a")])]))]);
    g.name = Symbol::new("g", 9, 10);
    g.is_grammar = true;
    g.rule_prefix = "pre".to_owned();
    let out = refine_rules(g);
    assert_eq!(out.grammar.name.name, "g");
    assert!(out.grammar.is_grammar);
    assert_eq!(out.grammar.rule_prefix, "pre");
    assert!(body(&out.grammar, "p").same(&text("a")));
    assert!(out.diagnostics.is_empty());
}

#[test]
fn tag_elimination_follows_the_flags_of_the_rule() {
    let mut strict = class("s", tagged(rule_ref("x"), "t"));
    strict.eliminate_unmarked = true;
    let g = grammar(vec![strict, class("l", tagged(rule_ref("x"), "t"))]);
    let out = remark_tags(g);
    assert!(body(&out.grammar, "s").same(&rule_ref("x")));
    assert!(body(&out.grammar, "l").same(&tagged(rule_ref("x"), "t")));
    assert_eq!(out.fields.len(), 1);
    assert_eq!((out.fields[0].rule.as_str(), out.fields[0].field.as_str()), ("l", "t"));
}

#[test]
fn fusion_pass_uses_the_atomic_flag() {
    let mut atomic = class("a", ExpressionNode::concat(vec![text("x"), text("y")]));
    atomic.atomic_rule = true;
    let g = grammar(vec![atomic, class("b", ExpressionNode::concat(vec![text("x"), text("y")]))]);
    let out = fusion_rules(g);
    assert!(body(&out.grammar, "a").same(&ExpressionNode::concat(vec![text("xy")])));
    assert!(body(&out.grammar, "b").same(&ExpressionNode::concat(vec![text("x"), text("y")])));
}

#[test]
fn left_recursion_is_a_build_error() {
    let e = class(
        "E",
        ExpressionNode::choice(vec![ExpressionNode::concat(vec![rule_ref("E"), text("+"), rule_ref("E")]), rule_ref("INT")]),
    );
    let mut e = e;
    e.range = 5..25;
    let fine = class("F", ExpressionNode::concat(vec![rule_ref("INT"), unary(ExpressionNode::concat(vec![text("+"), rule_ref("INT")]), vec![Operator::Repeats])]));
    let hidden = class("G", ExpressionNode::concat(vec![unary(text("x"), vec![Operator::Optional]), rule_ref("G")]));
    let g = grammar(vec![e, fine, hidden, class("INT", text("1"))]);
    let notes = find_left_recursion(&g.rules);
    assert_eq!(notes.len(), 2);
    assert_eq!(notes[0].kind, DiagnosticKind::LeftRecursion);
    assert_eq!(notes[0].rule, "E");
    assert_eq!((notes[0].start, notes[0].end), (5, 25));
    assert!(notes[0].fatal);
    assert_eq!(notes[1].rule, "G");
    let out = optimize(g);
    assert!(has_fatal(&out.diagnostics));
    assert_eq!(out.diagnostics[0].kind, DiagnosticKind::LeftRecursion);
}

#[test]
fn nullable_expressions() {
    assert!(can_be_empty(&text("")));
    assert!(!can_be_empty(&text("a")));
    assert!(can_be_empty(&unary(text("a"), vec![Operator::Repeats])));
    assert!(!can_be_empty(&unary(text("a"), vec![Operator::Repeat1])));
    assert!(can_be_empty(&ExpressionNode::choice(vec![text("a"), text("")])));
    assert!(!can_be_empty(&ExpressionNode::concat(vec![text(""), rule_ref("x")])));
}

#[test]
fn whole_pipeline() {
    let mut p = class(
        "P",
        ExpressionNode::concat(vec![
            ExpressionNode::concat(vec![tagged(rule_ref("_a"), "first")]),
            unary(unary(rule_ref("B"), vec![Operator::Repeats]), vec![Operator::Repeats]),
        ]),
    );
    p.eliminate_unnamed = true;
    let mut g = grammar(vec![
        p,
        class("_a", text("a")),
        class("B", text("b")),
        class("_ws", text(" ")),
        class("_dead", text("d")),
    ]);
    g.ignores.push(Symbol::new("_ws", 0, 0));
    let out = optimize(g);
    assert_eq!(names(&out.grammar), vec!["P", "B", "_ws"]);
    let marker = unary(rule_ref("_ws"), vec![Operator::Repeats]);
    let expected = ExpressionNode::concat(vec![text("a"), marker, unary(rule_ref("B"), vec![Operator::Repeats])]);
    assert!(body(&out.grammar, "P").same(&expected));
    let kinds: Vec<DiagnosticKind> = out.diagnostics.iter().map(|d| d.kind).collect();
    assert_eq!(kinds, vec![DiagnosticKind::UnusedRule, DiagnosticKind::UnusedRule]);
    assert!(out.fields.is_empty());
    let again = optimize(out.grammar);
    assert_eq!(names(&again.grammar), vec!["P", "B", "_ws"]);
    assert!(body(&again.grammar, "P").same(&expected));
}

#[test]
fn rules_keep_their_order_and_names_are_unique() {
    let mut g = grammar(vec![class("a", text("1")), class("b", text("2")), class("a", text("3"))]);
    assert_eq!(names(&g), vec!["a", "b"]);
    assert!(body(&g, "a").same(&text("3")));
    assert_eq!(g.rules.find("b"), Some(1));
    assert_eq!(g.rules.find("c"), None);
    assert!(g.rules.get("c").is_none());
    assert!(g.rules.rule_at(2).is_none());
    g.insert(class("c", text("4")));
    assert_eq!(names(&g), vec!["a", "b", "c"]);
    let union = GrammarRule::with_body(
        Symbol::new("u", 0, 0),
        GrammarBody::Union { branches: vec![UnionBranch { tag: Some(Symbol::new("T", 0, 0)), expression: text("x") }] },
        1,
        2,
    );
    let copy = union.duplicate();
    assert_eq!(copy.range, 1..2);
    assert_eq!(copy.name.name, "u");
}

fn sample() -> GrammarInfo {
    let call = |name: &str| ExpressionNode::new(ExpressionKind::Function(Box::new(FunctionExpression { name: name.to_owned(), args: vec![] })));
    let mut word = class(
        "word",
        ExpressionNode::concat(vec![
            ExpressionNode::concat(vec![tagged(text("a"), "first"), text("b")]),
            text("c"),
            text("d"),
            rule_ref("_tail"),
            unary(unary(call("ASCII_DIGIT"), vec![Operator::Optional]), vec![Operator::Repeats]),
        ]),
    );
    word.atomic_rule = true;
    word.eliminate_unnamed = true;
    let mut g = grammar(vec![
        class("main", ExpressionNode::concat(vec![rule_ref("word"), ExpressionNode::choice(vec![rule_ref("_tail"), call("EOI")])])),
        word,
        class("_tail", ExpressionNode::choice(vec![text("x"), ExpressionNode::choice(vec![text("y")])])),
        class("_ws", text(" ")),
        class("_dead", rule_ref("_deader")),
        class("_deader", text("d")),
    ]);
    g.ignores.push(Symbol::new("_ws", 0, 0));
    g
}

fn same_rules(a: &GrammarInfo, b: &GrammarInfo) -> bool {
    names(a) == names(b) && names(a).iter().all(|n| body(a, n).same(&body(b, n)))
}

fn copy_of(g: &GrammarInfo) -> GrammarInfo {
    let mut out = grammar((0..g.rules.rule_count()).map(|i| g.rules.rule_at(i).unwrap().duplicate()).collect());
    out.ignores = g.ignores.iter().map(|s| s.duplicate()).collect();
    out.extensions = g.extensions.iter().map(|s| s.duplicate()).collect();
    out
}

#[test]
fn each_pass_run_twice_is_the_pass_run_once() {
    let passes: Vec<fn(GrammarInfo) -> yggdrasil::optimize::pipeline::Optimized> =
        vec![refine_rules, inline_rules, fusion_rules, eliminate_dead_code, insert_ignore, remark_tags, emit_function];
    for pass in passes {
        let once = pass(sample()).grammar;
        assert!(!same_rules(&once, &sample()));
        let twice = pass(copy_of(&once)).grammar;
        assert!(same_rules(&once, &twice));
    }
}

#[test]
fn dead_code_run_twice_finds_nothing_more() {
    let once = eliminate_dead_code(sample());
    assert_eq!(names(&once.grammar), vec!["main", "word", "_tail", "_ws"]);
    assert_eq!(once.diagnostics.len(), 2);
    let twice = eliminate_dead_code(once.grammar);
    assert_eq!(names(&twice.grammar), vec!["main", "word", "_tail", "_ws"]);
    assert!(twice.diagnostics.is_empty());
}

#[test]
fn a_second_run_fuses_what_the_first_run_lowered() {
    let call = ExpressionNode::new(ExpressionKind::Function(Box::new(FunctionExpression { name: "ASCII_DIGIT".to_owned(), args: vec![] })));
    let letters = ExpressionNode::new(ExpressionKind::Data(Box::new(DataKind::CharacterRange('a', 'z'))));
    let digits = ExpressionNode::new(ExpressionKind::Data(Box::new(DataKind::CharacterRange('0', '9'))));
    let once = optimize(grammar(vec![class("a", ExpressionNode::choice(vec![call, letters.duplicate()]))]));
    assert!(!has_fatal(&once.diagnostics));
    assert!(body(&once.grammar, "a").same(&ExpressionNode::choice(vec![digits, letters])));
    let twice = optimize(copy_of(&once.grammar));
    let set = ExpressionNode::new(ExpressionKind::Data(Box::new(DataKind::CharacterSet(vec![('0', '9'), ('a', 'z')]))));
    assert!(body(&twice.grammar, "a").same(&ExpressionNode::choice(vec![set])));
}

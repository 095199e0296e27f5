//! Rewriting an expression from its leaves up.
//!
//! A rewriting first rewrites the parts of an expression and then the
//! expression itself by a local rule, which depends on the pass.

use crate::ir::expression::{
    copy_operators, kind_view, lemma_node_views, lemma_node_views_push, node_view, node_views,
    ChoiceExpression, ConcatExpression, DataKind, DataView, ExpressionKind, ExpressionNode,
    FunctionExpression, KindView, NodeView, Operator, RuleReference, UnaryExpression,
};
use crate::optimize::refine::{is_plain, plain};
use crate::strings::same_text;
use vstd::prelude::*;
use vstd::string::*;

verus! {

/// The model of a pass over expressions.
pub enum PassView {
    /// Joins neighbours that can be matched as one.
    Fuse { atomic: bool },
    /// Puts `ignore` between the terms of every sequence.
    Ignore { ignore: NodeView },
    /// Takes tags away.
    Remark { unmarked: bool, unnamed: bool },
    /// Puts what a built-in function stands for in the place of its call.
    Emit,
    /// Puts the body of a rule in the place of a reference to it.
    Inline { names: Seq<Seq<char>>, bodies: Seq<NodeView> },
}

/// A rule whose body takes the place of the references to it.
pub struct InlineRule {
    /// The name of the rule.
    pub name: String,
    /// Its body.
    pub body: ExpressionNode,
}

/// A pass over expressions.
pub enum NodePass<'a> {
    /// Joins neighbours that can be matched as one: in the sequences of an
    /// atomic rule texts that follow one another, in choices classes of
    /// code points that follow one another, and under operators an option
    /// and a repetition that follow one another.
    Fuse { atomic: bool },
    /// Puts `ignore` between the terms of every sequence, but not beside a
    /// term that is `ignore` itself.
    Ignore { ignore: &'a ExpressionNode },
    /// Takes the tags of unmarked expressions away (for `unmarked`) and
    /// those of literals (for `unnamed`).
    Remark { unmarked: bool, unnamed: bool },
    /// Puts what a built-in function stands for in the place of its call.
    Emit,
    /// Puts the body of one of `rules` in the place of a reference to it.
    Inline { rules: &'a Vec<InlineRule> },
}

/// The names of a row of rules to inline.
pub open spec fn inline_names(rules: Seq<InlineRule>) -> Seq<Seq<char>> {
    Seq::new(rules.len(), |i: int| rules[i].name@)
}

/// The bodies of a row of rules to inline.
pub open spec fn inline_bodies(rules: Seq<InlineRule>) -> Seq<NodeView> {
    Seq::new(rules.len(), |i: int| node_view(rules[i].body))
}

impl<'a> View for NodePass<'a> {
    type V = PassView;

    open spec fn view(&self) -> PassView {
        match *self {
            NodePass::Fuse { atomic } => PassView::Fuse { atomic },
            NodePass::Ignore { ignore } => PassView::Ignore { ignore: node_view(*ignore) },
            NodePass::Remark { unmarked, unnamed } => PassView::Remark { unmarked, unnamed },
            NodePass::Emit => PassView::Emit,
            NodePass::Inline { rules } => PassView::Inline {
                names: inline_names(rules@),
                bodies: inline_bodies(rules@),
            },
        }
    }
}

/// True when `n` is an untagged, unmarked text.
pub open spec fn is_plain_text(n: NodeView) -> bool {
    is_plain(n) && n.kind is Data && n.kind->data is Text
}

/// The text of a text literal.
pub open spec fn text_of(n: NodeView) -> Seq<char> {
    n.kind->data->Text_0
}

/// The untagged, unmarked literal of the text `t`.
pub open spec fn text_node(t: Seq<char>) -> NodeView {
    NodeView {
        kind: KindView::Data { data: DataView::Text(t) },
        tag: Seq::<char>::empty(),
        remark: false,
    }
}

/// The first `k` of `s`, with texts that follow one another joined.
pub open spec fn joined_texts(s: Seq<NodeView>, k: nat) -> Seq<NodeView>
    decreases k,
{
    if k == 0 || k > s.len() {
        Seq::<NodeView>::empty()
    } else {
        let r = joined_texts(s, (k - 1) as nat);
        let x = s[k - 1];
        if r.len() > 0 && is_plain_text(r.last()) && is_plain_text(x) {
            r.drop_last().push(text_node(text_of(r.last()) + text_of(x)))
        } else {
            r.push(x)
        }
    }
}

/// True when `n` is an untagged, unmarked class of code points.
pub open spec fn is_plain_class(n: NodeView) -> bool {
    is_plain(n) && n.kind is Data && (n.kind->data is Character || n.kind->data is CharacterRange
        || n.kind->data is CharacterSet)
}

/// The ranges of a class of code points.
pub open spec fn ranges_of(n: NodeView) -> Seq<(char, char)> {
    match n.kind->data {
        DataView::Character(c) => seq![(c, c)],
        DataView::CharacterRange(a, b) => seq![(a, b)],
        DataView::CharacterSet(s) => s,
        _ => Seq::<(char, char)>::empty(),
    }
}

/// The untagged, unmarked class of the code points of `ranges`.
pub open spec fn class_node(ranges: Seq<(char, char)>) -> NodeView {
    NodeView {
        kind: KindView::Data { data: DataView::CharacterSet(ranges) },
        tag: Seq::<char>::empty(),
        remark: false,
    }
}

/// The first `k` of `s`, with classes that follow one another joined.
pub open spec fn joined_classes(s: Seq<NodeView>, k: nat) -> Seq<NodeView>
    decreases k,
{
    if k == 0 || k > s.len() {
        Seq::<NodeView>::empty()
    } else {
        let r = joined_classes(s, (k - 1) as nat);
        let x = s[k - 1];
        if r.len() > 0 && is_plain_class(r.last()) && is_plain_class(x) {
            r.drop_last().push(class_node(ranges_of(r.last()) + ranges_of(x)))
        } else {
            r.push(x)
        }
    }
}

/// `ops` with an option beside a repetition, or beside another option,
/// taken away.
pub open spec fn fused_ops(ops: Seq<Operator>) -> Seq<Operator>
    decreases ops.len(),
{
    if ops.len() == 0 {
        Seq::<Operator>::empty()
    } else {
        let r = fused_ops(ops.drop_last());
        let x = ops.last();
        if r.len() > 0 && x == Operator::Optional && (r.last() == Operator::Repeats || r.last()
            == Operator::Optional) {
            r
        } else if r.len() > 0 && x == Operator::Repeats && r.last() == Operator::Optional {
            r.drop_last().push(Operator::Repeats)
        } else {
            r.push(x)
        }
    }
}

/// The first `k` of `s`, with `ignore` between any two that follow one
/// another and are not `ignore` themselves.
pub open spec fn spaced(s: Seq<NodeView>, ignore: NodeView, k: nat) -> Seq<NodeView>
    decreases k,
{
    if k == 0 || k > s.len() {
        Seq::<NodeView>::empty()
    } else {
        let r = spaced(s, ignore, (k - 1) as nat);
        let x = s[k - 1];
        if r.len() > 0 && r.last() != ignore && x != ignore {
            r.push(ignore).push(x)
        } else {
            r.push(x)
        }
    }
}

/// What the built-in function `name` stands for, if there is one of that
/// name.
pub open spec fn builtin(name: Seq<char>) -> Option<KindView> {
    if name == "ANY"@ {
        Some(KindView::Data { data: DataView::CharacterRange('\u{0}', '\u{10FFFF}') })
    } else if name == "SOI"@ {
        Some(KindView::Rule { name: "SOI"@, boxed: false })
    } else if name == "EOI"@ {
        Some(KindView::Rule { name: "EOI"@, boxed: false })
    } else if name == "ASCII_DIGIT"@ {
        Some(KindView::Data { data: DataView::CharacterRange('0', '9') })
    } else if name == "ASCII_LOWER"@ {
        Some(KindView::Data { data: DataView::CharacterRange('a', 'z') })
    } else if name == "ASCII_UPPER"@ {
        Some(KindView::Data { data: DataView::CharacterRange('A', 'Z') })
    } else {
        None
    }
}

/// Index of the first of `names` that is `name`, or the number of names.
pub open spec fn position_of(names: Seq<Seq<char>>, name: Seq<char>, k: nat) -> nat
    decreases names.len() - k,
{
    if k >= names.len() {
        names.len()
    } else if names[k as int] == name {
        k
    } else {
        position_of(names, name, k + 1)
    }
}

/// What the pass makes of `n` once its parts are rewritten.
pub open spec fn local(p: PassView, n: NodeView) -> NodeView {
    match p {
        PassView::Fuse { atomic } => match n.kind {
            KindView::Concat { terms } if atomic => NodeView {
                kind: KindView::Concat { terms: joined_texts(terms, terms.len()) },
                ..n
            },
            KindView::Choice { branches } => NodeView {
                kind: KindView::Choice { branches: joined_classes(branches, branches.len()) },
                ..n
            },
            KindView::Unary { base, ops } => NodeView {
                kind: KindView::Unary { base, ops: fused_ops(ops) },
                ..n
            },
            _ => n,
        },
        PassView::Ignore { ignore } => match n.kind {
            KindView::Concat { terms } => NodeView {
                kind: KindView::Concat { terms: spaced(terms, ignore, terms.len()) },
                ..n
            },
            _ => n,
        },
        PassView::Remark { unmarked, unnamed } => if (unmarked && !n.remark) || (unnamed
            && n.kind is Data) {
            NodeView { tag: Seq::<char>::empty(), ..n }
        } else {
            n
        },
        PassView::Emit => match n.kind {
            KindView::Function { name, args } => match builtin(name) {
                Some(kind) => NodeView { kind, ..n },
                None => n,
            },
            _ => n,
        },
        PassView::Inline { names, bodies } => match n.kind {
            KindView::Rule { name, boxed } => {
                let at = position_of(names, name, 0);
                if at < names.len() && at < bodies.len() {
                    NodeView {
                        kind: bodies[at as int].kind,
                        tag: if n.tag.len() > 0 {
                            n.tag
                        } else {
                            bodies[at as int].tag
                        },
                        remark: n.remark || bodies[at as int].remark,
                    }
                } else {
                    n
                }
            },
            _ => n,
        },
    }
}

/// The first `k` of `s`, each rewritten.
pub open spec fn rewritten_each(p: PassView, s: Seq<NodeView>, k: nat) -> Seq<NodeView>
    decreases s, k,
{
    if k == 0 || k > s.len() {
        Seq::<NodeView>::empty()
    } else {
        rewritten_each(p, s, (k - 1) as nat).push(rewritten(p, s[k - 1]))
    }
}

/// `n` with its parts rewritten.
pub open spec fn with_parts_rewritten(p: PassView, n: NodeView) -> NodeView
    decreases n, 0nat,
{
    match n.kind {
        KindView::Choice { branches } => NodeView {
            kind: KindView::Choice { branches: rewritten_each(p, branches, branches.len()) },
            ..n
        },
        KindView::Concat { terms } => NodeView {
            kind: KindView::Concat { terms: rewritten_each(p, terms, terms.len()) },
            ..n
        },
        KindView::Unary { base, ops } => NodeView {
            kind: KindView::Unary { base: Box::new(rewritten(p, *base)), ops },
            ..n
        },
        KindView::Function { name, args } => NodeView {
            kind: KindView::Function { name, args: rewritten_each(p, args, args.len()) },
            ..n
        },
        KindView::Rule { .. } => n,
        KindView::Data { .. } => n,
    }
}

/// What the pass makes of `n`.
pub open spec fn rewritten(p: PassView, n: NodeView) -> NodeView
    decreases n, 1nat,
{
    local(p, with_parts_rewritten(p, n))
}

/// The text of an untagged, unmarked text literal.
fn plain_text(e: &ExpressionNode) -> (r: Option<&String>)
    ensures
        r is Some <==> is_plain_text(e@),
        r matches Some(s) ==> s@ == text_of(e@),
{
    if !plain(e) {
        return None;
    }
    match &e.kind {
        ExpressionKind::Data(d) => d.as_text(),
        _ => None,
    }
}

/// The ranges of an untagged, unmarked class of code points.
fn plain_class(e: &ExpressionNode) -> (r: Option<Vec<(char, char)>>)
    ensures
        r is Some <==> is_plain_class(e@),
        r matches Some(v) ==> v@ == ranges_of(e@),
{
    if !plain(e) {
        return None;
    }
    match &e.kind {
        ExpressionKind::Data(d) => d.as_ranges(),
        _ => None,
    }
}

impl DataKind {
    /// The text of a text literal.
    pub fn as_text(&self) -> (r: Option<&String>)
        ensures
            r is Some <==> self@ is Text,
            r matches Some(s) ==> s@ == self@->Text_0,
    {
        match self {
            DataKind::Text(s) => Some(s),
            _ => None,
        }
    }

    /// The ranges of a class of code points.
    pub fn as_ranges(&self) -> (r: Option<Vec<(char, char)>>)
        ensures
            r is Some <==> (self@ is Character || self@ is CharacterRange || self@
                is CharacterSet),
            r matches Some(v) ==> v@ == match self@ {
                DataView::Character(c) => seq![(c, c)],
                DataView::CharacterRange(a, b) => seq![(a, b)],
                DataView::CharacterSet(s) => s,
                _ => Seq::<(char, char)>::empty(),
            },
    {
        match self {
            DataKind::Character(c) => {
                let mut v: Vec<(char, char)> = Vec::new();
                v.push((*c, *c));
                Some(v)
            },
            DataKind::CharacterRange(a, b) => {
                let mut v: Vec<(char, char)> = Vec::new();
                v.push((*a, *b));
                Some(v)
            },
            DataKind::CharacterSet(s) => {
                let mut v: Vec<(char, char)> = Vec::new();
                let mut i: usize = 0;
                while i < s.len()
                    invariant
                        i <= s.len(),
                        v@ == s@.take(i as int),
                    decreases s.len() - i,
                {
                    v.push(s[i]);
                    proof {
                        assert(v@ =~= s@.take(i + 1));
                    }
                    i = i + 1;
                }
                proof {
                    assert(s@.take(s.len() as int) =~= s@);
                }
                Some(v)
            },
            _ => None,
        }
    }
}

/// The models of a row whose last member is replaced.
proof fn lemma_replace_last(s: Seq<ExpressionNode>, e: ExpressionNode)
    requires
        s.len() > 0,
    ensures
        node_views(s.drop_last().push(e)) == node_views(s).drop_last().push(node_view(e)),
        node_views(s).last() == node_view(s.last()),
{
    lemma_node_views(s);
    lemma_node_views(s.drop_last().push(e));
    assert(node_views(s.drop_last().push(e)) =~= node_views(s).drop_last().push(node_view(e)));
}

/// `terms` with texts that follow one another joined.
fn join_texts(terms: &Vec<ExpressionNode>) -> (out: Vec<ExpressionNode>)
    ensures
        node_views(out@) == joined_texts(node_views(terms@), terms@.len()),
{
    let mut out: Vec<ExpressionNode> = Vec::new();
    let mut i: usize = 0;
    let ghost all = node_views(terms@);
    proof {
        lemma_node_views(terms@);
        lemma_node_views(out@);
        assert(node_views(out@) =~= Seq::<NodeView>::empty());
    }
    while i < terms.len()
        invariant
            i <= terms.len(),
            all == node_views(terms@),
            all.len() == terms.len(),
            forall|k: int| 0 <= k < terms.len() ==> (#[trigger] all[k]) == node_view(terms@[k]),
            node_views(out@) == joined_texts(all, i as nat),
        decreases terms.len() - i,
    {
        let x = &terms[i];
        let n = out.len();
        proof {
            lemma_node_views(out@);
        }
        let both: Option<String> = if n > 0 {
            match (plain_text(&out[n - 1]), plain_text(x)) {
                (Some(a), Some(b)) => {
                    let mut t = a.clone();
                    t.append(b.as_str());
                    Some(t)
                },
                _ => None,
            }
        } else {
            None
        };
        let ghost before = out@;
        match both {
            Some(t) => {
                let node = ExpressionNode::text(t.as_str());
                proof {
                    lemma_replace_last(before, node);
                }
                out.pop();
                out.push(node);
            },
            None => {
                let node = x.duplicate();
                proof {
                    lemma_node_views_push(before, node);
                }
                out.push(node);
            },
        }
        i = i + 1;
    }
    out
}

/// `branches` with classes of code points that follow one another joined.
fn join_classes(branches: &Vec<ExpressionNode>) -> (out: Vec<ExpressionNode>)
    ensures
        node_views(out@) == joined_classes(node_views(branches@), branches@.len()),
{
    let mut out: Vec<ExpressionNode> = Vec::new();
    let mut i: usize = 0;
    let ghost all = node_views(branches@);
    proof {
        lemma_node_views(branches@);
        lemma_node_views(out@);
        assert(node_views(out@) =~= Seq::<NodeView>::empty());
    }
    while i < branches.len()
        invariant
            i <= branches.len(),
            all == node_views(branches@),
            all.len() == branches.len(),
            forall|k: int|
                0 <= k < branches.len() ==> (#[trigger] all[k]) == node_view(branches@[k]),
            node_views(out@) == joined_classes(all, i as nat),
        decreases branches.len() - i,
    {
        let x = &branches[i];
        let n = out.len();
        proof {
            lemma_node_views(out@);
        }
        let both: Option<Vec<(char, char)>> = if n > 0 {
            match (plain_class(&out[n - 1]), plain_class(x)) {
                (Some(a), Some(b)) => {
                    let mut t = a;
                    let mut more = b;
                    t.append(&mut more);
                    Some(t)
                },
                _ => None,
            }
        } else {
            None
        };
        let ghost before = out@;
        match both {
            Some(t) => {
                let node = ExpressionNode::new(
                    ExpressionKind::Data(Box::new(DataKind::CharacterSet(t))),
                );
                proof {
                    lemma_replace_last(before, node);
                }
                out.pop();
                out.push(node);
            },
            None => {
                let node = x.duplicate();
                proof {
                    lemma_node_views_push(before, node);
                }
                out.push(node);
            },
        }
        i = i + 1;
    }
    out
}

/// `ops` with an option beside a repetition, or beside another option,
/// taken away.
pub fn fuse_ops(ops: &Vec<Operator>) -> (out: Vec<Operator>)
    ensures
        out@ == fused_ops(ops@),
{
    let mut out: Vec<Operator> = Vec::new();
    let mut i: usize = 0;
    proof {
        assert(ops@.take(0) =~= Seq::<Operator>::empty());
    }
    while i < ops.len()
        invariant
            i <= ops.len(),
            out@ == fused_ops(ops@.take(i as int)),
        decreases ops.len() - i,
    {
        let x = ops[i];
        proof {
            let t = ops@.take(i + 1);
            assert(t.drop_last() =~= ops@.take(i as int));
            assert(t.last() == x);
        }
        let n = out.len();
        let last_optional = n > 0 && matches!(out[n - 1], Operator::Optional);
        let last_repeats = n > 0 && matches!(out[n - 1], Operator::Repeats);
        let x_optional = matches!(x, Operator::Optional);
        let x_repeats = matches!(x, Operator::Repeats);
        if x_optional && (last_repeats || last_optional) {
        } else if x_repeats && last_optional {
            out.pop();
            out.push(Operator::Repeats);
        } else {
            out.push(x);
        }
        i = i + 1;
    }
    proof {
        assert(ops@.take(ops.len() as int) =~= ops@);
    }
    out
}

/// `terms` with `ignore` between any two that follow one another and are
/// not `ignore` themselves.
fn space(terms: &Vec<ExpressionNode>, ignore: &ExpressionNode) -> (out: Vec<ExpressionNode>)
    ensures
        node_views(out@) == spaced(node_views(terms@), ignore@, terms@.len()),
{
    let mut out: Vec<ExpressionNode> = Vec::new();
    let mut i: usize = 0;
    let ghost all = node_views(terms@);
    proof {
        lemma_node_views(terms@);
        lemma_node_views(out@);
        assert(node_views(out@) =~= Seq::<NodeView>::empty());
    }
    while i < terms.len()
        invariant
            i <= terms.len(),
            all == node_views(terms@),
            all.len() == terms.len(),
            forall|k: int| 0 <= k < terms.len() ==> (#[trigger] all[k]) == node_view(terms@[k]),
            node_views(out@) == spaced(all, ignore@, i as nat),
        decreases terms.len() - i,
    {
        let x = &terms[i];
        let n = out.len();
        proof {
            lemma_node_views(out@);
        }
        if n > 0 && !out[n - 1].same(ignore) && !x.same(ignore) {
            let marker = ignore.duplicate();
            proof {
                lemma_node_views_push(out@, marker);
            }
            out.push(marker);
        }
        let node = x.duplicate();
        proof {
            lemma_node_views_push(out@, node);
        }
        out.push(node);
        i = i + 1;
    }
    out
}

/// What the built-in function `name` stands for, if there is one of that
/// name.
pub fn builtin_kind(name: &str) -> (r: Option<ExpressionKind>)
    ensures
        match r {
            Some(k) => builtin(name@) == Some(kind_view(k)),
            None => builtin(name@) is None,
        },
{
    if same_text(name, "ANY") {
        Some(ExpressionKind::Data(Box::new(DataKind::CharacterRange('\u{0}', '\u{10FFFF}'))))
    } else if same_text(name, "SOI") {
        Some(ExpressionKind::Rule(Box::new(RuleReference { name: "SOI".to_owned(), boxed: false })))
    } else if same_text(name, "EOI") {
        Some(ExpressionKind::Rule(Box::new(RuleReference { name: "EOI".to_owned(), boxed: false })))
    } else if same_text(name, "ASCII_DIGIT") {
        Some(ExpressionKind::Data(Box::new(DataKind::CharacterRange('0', '9'))))
    } else if same_text(name, "ASCII_LOWER") {
        Some(ExpressionKind::Data(Box::new(DataKind::CharacterRange('a', 'z'))))
    } else if same_text(name, "ASCII_UPPER") {
        Some(ExpressionKind::Data(Box::new(DataKind::CharacterRange('A', 'Z'))))
    } else {
        None
    }
}

/// Index of the first of `rules` with the name `name`, or their number.
fn find_inline(rules: &Vec<InlineRule>, name: &str) -> (at: usize)
    ensures
        at == position_of(inline_names(rules@), name@, 0),
{
    let mut i: usize = 0;
    let ghost names = inline_names(rules@);
    while i < rules.len()
        invariant
            i <= rules.len(),
            names == inline_names(rules@),
            position_of(names, name@, i as nat) == position_of(names, name@, 0),
        decreases rules.len() - i,
    {
        if same_text(rules[i].name.as_str(), name) {
            return i;
        }
        i = i + 1;
    }
    i
}

/// What the pass makes of `e` once its parts are rewritten.
fn apply_local(p: &NodePass<'_>, e: ExpressionNode) -> (r: ExpressionNode)
    ensures
        r@ == local(p@, e@),
{
    match p {
        NodePass::Fuse { atomic } => {
            let ExpressionNode { kind, tag, remark } = e;
            match kind {
                ExpressionKind::Concat(c) => {
                    if *atomic {
                        proof {
                            lemma_node_views(c.terms@);
                        }
                        let terms = join_texts(&c.terms);
                        ExpressionNode {
                            kind: ExpressionKind::Concat(Box::new(ConcatExpression { terms })),
                            tag,
                            remark,
                        }
                    } else {
                        ExpressionNode { kind: ExpressionKind::Concat(c), tag, remark }
                    }
                },
                ExpressionKind::Choice(c) => {
                    proof {
                        lemma_node_views(c.branches@);
                    }
                    let branches = join_classes(&c.branches);
                    ExpressionNode {
                        kind: ExpressionKind::Choice(Box::new(ChoiceExpression { branches })),
                        tag,
                        remark,
                    }
                },
                ExpressionKind::Unary(u) => {
                    let UnaryExpression { base, ops } = *u;
                    let ops = fuse_ops(&ops);
                    ExpressionNode {
                        kind: ExpressionKind::Unary(Box::new(UnaryExpression { base, ops })),
                        tag,
                        remark,
                    }
                },
                other => ExpressionNode { kind: other, tag, remark },
            }
        },
        NodePass::Ignore { ignore } => {
            let ExpressionNode { kind, tag, remark } = e;
            match kind {
                ExpressionKind::Concat(c) => {
                    proof {
                        lemma_node_views(c.terms@);
                    }
                    let terms = space(&c.terms, ignore);
                    ExpressionNode {
                        kind: ExpressionKind::Concat(Box::new(ConcatExpression { terms })),
                        tag,
                        remark,
                    }
                },
                other => ExpressionNode { kind: other, tag, remark },
            }
        },
        NodePass::Remark { unmarked, unnamed } => {
            let is_data = match &e.kind {
                ExpressionKind::Data(_) => true,
                _ => false,
            };
            if (*unmarked && !e.remark) || (*unnamed && is_data) {
                let ExpressionNode { kind, tag, remark } = e;
                ExpressionNode { kind, tag: String::new(), remark }
            } else {
                e
            }
        },
        NodePass::Emit => {
            let ExpressionNode { kind, tag, remark } = e;
            match kind {
                ExpressionKind::Function(f) => match builtin_kind(f.name.as_str()) {
                    Some(k) => ExpressionNode { kind: k, tag, remark },
                    None => ExpressionNode { kind: ExpressionKind::Function(f), tag, remark },
                },
                other => ExpressionNode { kind: other, tag, remark },
            }
        },
        NodePass::Inline { rules } => {
            let ExpressionNode { kind, tag, remark } = e;
            match kind {
                ExpressionKind::Rule(r) => {
                    let at = find_inline(rules, r.name.as_str());
                    if at < rules.len() {
                        let body = rules[at].body.duplicate();
                        let ExpressionNode { kind: body_kind, tag: body_tag, remark: body_remark } =
                            body;
                        let keep = !tag.as_str().is_empty();
                        ExpressionNode {
                            kind: body_kind,
                            tag: if keep {
                                tag
                            } else {
                                body_tag
                            },
                            remark: remark || body_remark,
                        }
                    } else {
                        ExpressionNode { kind: ExpressionKind::Rule(r), tag, remark }
                    }
                },
                other => ExpressionNode { kind: other, tag, remark },
            }
        },
    }
}

/// The members of `nodes`, each rewritten.
fn rewrite_each(p: &NodePass<'_>, nodes: &Vec<ExpressionNode>) -> (out: Vec<ExpressionNode>)
    ensures
        node_views(out@) == rewritten_each(p@, node_views(nodes@), nodes@.len()),
    decreases nodes@,
{
    let mut out: Vec<ExpressionNode> = Vec::new();
    let mut i: usize = 0;
    let ghost all = node_views(nodes@);
    proof {
        lemma_node_views(nodes@);
        lemma_node_views(out@);
        assert(node_views(out@) =~= Seq::<NodeView>::empty());
    }
    while i < nodes.len()
        invariant
            i <= nodes.len(),
            all == node_views(nodes@),
            all.len() == nodes.len(),
            forall|k: int| 0 <= k < nodes.len() ==> (#[trigger] all[k]) == node_view(nodes@[k]),
            node_views(out@) == rewritten_each(p@, all, i as nat),
        decreases nodes.len() - i,
    {
        let r = rewrite(p, &nodes[i]);
        assert(r@ == rewritten(p@, all[i as int]));
        proof {
            lemma_node_views_push(out@, r);
        }
        out.push(r);
        i = i + 1;
    }
    out
}

/// What the pass makes of `e`: its parts are rewritten first, and then the
/// expression itself.
pub fn rewrite(p: &NodePass<'_>, e: &ExpressionNode) -> (r: ExpressionNode)
    ensures
        r@ == rewritten(p@, e@),
    decreases *e,
{
    let parts = match &e.kind {
        ExpressionKind::Choice(c) => {
            proof {
                lemma_node_views(c.branches@);
            }
            ExpressionKind::Choice(
                Box::new(ChoiceExpression { branches: rewrite_each(p, &c.branches) }),
            )
        },
        ExpressionKind::Concat(c) => {
            proof {
                lemma_node_views(c.terms@);
            }
            ExpressionKind::Concat(Box::new(ConcatExpression { terms: rewrite_each(p, &c.terms) }))
        },
        ExpressionKind::Unary(u) => ExpressionKind::Unary(
            Box::new(UnaryExpression { base: rewrite(p, &u.base), ops: copy_operators(&u.ops) }),
        ),
        ExpressionKind::Function(f) => {
            proof {
                lemma_node_views(f.args@);
            }
            ExpressionKind::Function(
                Box::new(
                    FunctionExpression { name: f.name.clone(), args: rewrite_each(p, &f.args) },
                ),
            )
        },
        ExpressionKind::Rule(r) => ExpressionKind::Rule(
            Box::new(RuleReference { name: r.name.clone(), boxed: r.boxed }),
        ),
        ExpressionKind::Data(d) => ExpressionKind::Data(Box::new(d.duplicate())),
    };
    let whole = ExpressionNode { kind: parts, tag: e.tag.clone(), remark: e.remark };
    assert(whole@ == with_parts_rewritten(p@, e@));
    apply_local(p, whole)
}

} // verus!

//! Rules: a name, flags and a body.

use crate::ir::expression::{node_view, ExpressionNode, NodeView};
use std::ops::Range;
use vstd::prelude::*;

verus! {

/// A name with the place in the grammar at which it stands.
#[derive(Debug)]
pub struct Symbol {
    /// The name.
    pub name: String,
    /// The bytes of the grammar that it covers.
    pub range: Range<usize>,
}

/// A name that is imported under another name.
#[derive(Debug)]
pub struct SymbolAlias {
    /// The name in the grammar that is imported from.
    pub name: String,
    /// The name in this grammar.
    pub alias: String,
    /// The bytes of the grammar that the import covers.
    pub range: Range<usize>,
}

/// What is derived for the type of a rule.
#[derive(Debug)]
pub struct RuleDerive {
    /// Name of a parser to derive.
    pub parser: Option<String>,
    /// Name of a `Debug` form to derive.
    pub debug: Option<String>,
    /// Name of a `Display` form to derive.
    pub display: Option<String>,
    /// True when equality is derived.
    pub eq: bool,
    /// Name of a partial equality to derive.
    pub eq_partial: Option<String>,
    /// True when an order is derived.
    pub ord: bool,
    /// Name of a partial order to derive.
    pub ord_partial: Option<String>,
    /// Name of a hash to derive.
    pub hash: Option<String>,
}

/// The model of what is derived.
pub struct DeriveView {
    pub parser: Option<Seq<char>>,
    pub debug: Option<Seq<char>>,
    pub display: Option<Seq<char>>,
    pub eq: bool,
    pub eq_partial: Option<Seq<char>>,
    pub ord: bool,
    pub ord_partial: Option<Seq<char>>,
    pub hash: Option<Seq<char>>,
}

/// The model of an optional text.
pub open spec fn text_view(t: Option<String>) -> Option<Seq<char>> {
    match t {
        Some(s) => Some(s@),
        None => None,
    }
}

/// A copy of an optional text.
pub fn copy_text(t: &Option<String>) -> (c: Option<String>)
    ensures
        text_view(c) == text_view(*t),
{
    match t {
        Some(s) => Some(s.clone()),
        None => None,
    }
}

/// The model of deriving nothing.
pub open spec fn no_derive() -> DeriveView {
    DeriveView {
        parser: None,
        debug: None,
        display: None,
        eq: false,
        eq_partial: None,
        ord: false,
        ord_partial: None,
        hash: None,
    }
}

impl Default for RuleDerive {
    fn default() -> (d: RuleDerive)
        ensures
            d@ == no_derive(),
    {
        RuleDerive {
            parser: None,
            debug: None,
            display: None,
            eq: false,
            eq_partial: None,
            ord: false,
            ord_partial: None,
            hash: None,
        }
    }
}

impl View for RuleDerive {
    type V = DeriveView;

    open spec fn view(&self) -> DeriveView {
        DeriveView {
            parser: text_view(self.parser),
            debug: text_view(self.debug),
            display: text_view(self.display),
            eq: self.eq,
            eq_partial: text_view(self.eq_partial),
            ord: self.ord,
            ord_partial: text_view(self.ord_partial),
            hash: text_view(self.hash),
        }
    }
}

impl RuleDerive {
    /// The names of the traits that are derived without further ado: `Eq`
    /// where equality is derived.
    pub fn derived(&self) -> (names: Vec<String>)
        ensures
            names@.len() == if self.eq {
                1nat
            } else {
                0nat
            },
            self.eq ==> names@[0]@ == "Eq"@,
    {
        let mut names: Vec<String> = Vec::new();
        if self.eq {
            names.push("Eq".to_owned());
        }
        names
    }

    /// A copy.
    pub fn duplicate(&self) -> (d: RuleDerive)
        ensures
            d@ == self@,
    {
        RuleDerive {
            parser: copy_text(&self.parser),
            debug: copy_text(&self.debug),
            display: copy_text(&self.display),
            eq: self.eq,
            eq_partial: copy_text(&self.eq_partial),
            ord: self.ord,
            ord_partial: copy_text(&self.ord_partial),
            hash: copy_text(&self.hash),
        }
    }
}

impl Symbol {
    /// The symbol `name` over the bytes from `start` up to `end`.
    pub fn new(name: &str, start: usize, end: usize) -> (s: Symbol)
        ensures
            s.name@ == name@,
            s.range.start == start,
            s.range.end == end,
    {
        Symbol { name: name.to_owned(), range: Range { start, end } }
    }

    /// A copy.
    pub fn duplicate(&self) -> (s: Symbol)
        ensures
            s.name@ == self.name@,
            s.range.start == self.range.start,
            s.range.end == self.range.end,
    {
        Symbol {
            name: self.name.clone(),
            range: Range { start: self.range.start, end: self.range.end },
        }
    }
}

/// One branch of a union: an expression, and the tag of the variant that it
/// makes.
#[derive(Debug)]
pub struct UnionBranch {
    /// The tag, if the branch has one.
    pub tag: Option<Symbol>,
    /// The expression.
    pub expression: ExpressionNode,
}

/// The body of a rule.
#[derive(Debug)]
pub enum GrammarBody {
    /// One expression, whose tagged parts are the fields.
    Class {
        /// The expression.
        term: ExpressionNode,
    },
    /// Alternatives, each of which is a variant.
    Union {
        /// The alternatives.
        branches: Vec<UnionBranch>,
    },
    /// Alternatives that are folded by precedence after the parse.
    Climb {
        /// The alternatives, from the one that binds most on.
        branches: Vec<UnionBranch>,
    },
}

/// The model of a branch: the tag and the expression.
pub struct BranchView {
    pub tag: Option<Seq<char>>,
    pub expression: NodeView,
}

/// The model of a body.
pub enum BodyView {
    Class { term: NodeView },
    Union { branches: Seq<BranchView> },
    Climb { branches: Seq<BranchView> },
}

/// The model of the tag of a branch.
pub open spec fn symbol_view(t: Option<Symbol>) -> Option<Seq<char>> {
    match t {
        Some(s) => Some(s.name@),
        None => None,
    }
}

impl View for UnionBranch {
    type V = BranchView;

    open spec fn view(&self) -> BranchView {
        BranchView { tag: symbol_view(self.tag), expression: node_view(self.expression) }
    }
}

/// The models of a row of branches.
pub open spec fn branch_views(s: Seq<UnionBranch>) -> Seq<BranchView> {
    Seq::new(s.len(), |i: int| s[i]@)
}

impl View for GrammarBody {
    type V = BodyView;

    open spec fn view(&self) -> BodyView {
        match *self {
            GrammarBody::Class { term } => BodyView::Class { term: node_view(term) },
            GrammarBody::Union { branches } => BodyView::Union { branches: branch_views(branches@) },
            GrammarBody::Climb { branches } => BodyView::Climb { branches: branch_views(branches@) },
        }
    }
}

/// A rule of a grammar.
#[derive(Debug)]
pub struct GrammarRule {
    /// The name of the rule.
    pub name: Symbol,
    /// The type that the rule returns, as the target language writes it.
    pub kind: String,
    /// The documentation of the rule.
    pub document: String,
    /// What is derived for the type of the rule.
    pub derives: RuleDerive,
    /// True when the body takes the place of every reference to the rule.
    pub auto_inline: bool,
    /// True when fields of this rule are allocated on the heap.
    pub auto_boxed: bool,
    /// True when the rule is kept in the tree although it is ignored.
    pub auto_capture: bool,
    /// True when nothing is ignored between the terms of the rule.
    pub atomic_rule: bool,
    /// True when parts that are not marked lose their tags.
    pub eliminate_unmarked: bool,
    /// True when literals lose their tags.
    pub eliminate_unnamed: bool,
    /// The body.
    pub body: GrammarBody,
    /// The bytes of the grammar that the rule covers.
    pub range: Range<usize>,
}

/// The model of a rule.
pub struct RuleView {
    pub name: Seq<char>,
    pub kind: Seq<char>,
    pub document: Seq<char>,
    pub derives: DeriveView,
    pub auto_inline: bool,
    pub auto_boxed: bool,
    pub auto_capture: bool,
    pub atomic_rule: bool,
    pub eliminate_unmarked: bool,
    pub eliminate_unnamed: bool,
    pub body: BodyView,
    pub range: (usize, usize),
}

impl View for GrammarRule {
    type V = RuleView;

    open spec fn view(&self) -> RuleView {
        RuleView {
            name: self.name.name@,
            kind: self.kind@,
            document: self.document@,
            derives: self.derives@,
            auto_inline: self.auto_inline,
            auto_boxed: self.auto_boxed,
            auto_capture: self.auto_capture,
            atomic_rule: self.atomic_rule,
            eliminate_unmarked: self.eliminate_unmarked,
            eliminate_unnamed: self.eliminate_unnamed,
            body: self.body@,
            range: (self.range.start, self.range.end),
        }
    }
}

/// Copies of a row of branches.
pub fn copy_branches(branches: &Vec<UnionBranch>) -> (out: Vec<UnionBranch>)
    ensures
        branch_views(out@) == branch_views(branches@),
{
    let mut out: Vec<UnionBranch> = Vec::new();
    let mut i: usize = 0;
    while i < branches.len()
        invariant
            i <= branches.len(),
            out.len() == i,
            forall|k: int| 0 <= k < i ==> out@[k]@ == branches@[k]@,
        decreases branches.len() - i,
    {
        let b = &branches[i];
        let tag = match &b.tag {
            Some(s) => Some(s.duplicate()),
            None => None,
        };
        out.push(UnionBranch { tag, expression: b.expression.duplicate() });
        i = i + 1;
    }
    proof {
        assert(branch_views(out@) =~= branch_views(branches@));
    }
    out
}

impl GrammarBody {
    /// A copy.
    pub fn duplicate(&self) -> (b: GrammarBody)
        ensures
            b@ == self@,
    {
        match self {
            GrammarBody::Class { term } => GrammarBody::Class { term: term.duplicate() },
            GrammarBody::Union { branches } => GrammarBody::Union {
                branches: copy_branches(branches),
            },
            GrammarBody::Climb { branches } => GrammarBody::Climb {
                branches: copy_branches(branches),
            },
        }
    }
}

impl GrammarRule {
    /// The class rule `name` with the body `term`, with no flag set.
    pub fn class(name: Symbol, term: ExpressionNode, start: usize, end: usize) -> (r: GrammarRule)
        ensures
            r@ == (RuleView {
                name: name.name@,
                kind: Seq::<char>::empty(),
                document: Seq::<char>::empty(),
                derives: no_derive(),
                auto_inline: false,
                auto_boxed: false,
                auto_capture: false,
                atomic_rule: false,
                eliminate_unmarked: false,
                eliminate_unnamed: false,
                body: BodyView::Class { term: node_view(term) },
                range: (start, end),
            }),
    {
        GrammarRule::with_body(name, GrammarBody::Class { term }, start, end)
    }

    /// The rule `name` with the body `body`, with no flag set.
    pub fn with_body(name: Symbol, body: GrammarBody, start: usize, end: usize) -> (r: GrammarRule)
        ensures
            r@ == (RuleView {
                name: name.name@,
                kind: Seq::<char>::empty(),
                document: Seq::<char>::empty(),
                derives: no_derive(),
                auto_inline: false,
                auto_boxed: false,
                auto_capture: false,
                atomic_rule: false,
                eliminate_unmarked: false,
                eliminate_unnamed: false,
                body: body@,
                range: (start, end),
            }),
    {
        GrammarRule {
            name,
            kind: String::new(),
            document: String::new(),
            derives: RuleDerive::default(),
            auto_inline: false,
            auto_boxed: false,
            auto_capture: false,
            atomic_rule: false,
            eliminate_unmarked: false,
            eliminate_unnamed: false,
            body,
            range: Range { start, end },
        }
    }

    /// The rule with another body.
    pub fn replace_body(&self, body: GrammarBody) -> (r: GrammarRule)
        ensures
            r@ == (RuleView { body: body@, ..self@ }),
    {
        GrammarRule {
            name: self.name.duplicate(),
            kind: self.kind.clone(),
            document: self.document.clone(),
            derives: self.derives.duplicate(),
            auto_inline: self.auto_inline,
            auto_boxed: self.auto_boxed,
            auto_capture: self.auto_capture,
            atomic_rule: self.atomic_rule,
            eliminate_unmarked: self.eliminate_unmarked,
            eliminate_unnamed: self.eliminate_unnamed,
            body,
            range: Range { start: self.range.start, end: self.range.end },
        }
    }

    /// A copy.
    pub fn duplicate(&self) -> (r: GrammarRule)
        ensures
            r@ == self@,
    {
        self.replace_body(self.body.duplicate())
    }
}

} // verus!

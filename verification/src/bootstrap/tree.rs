//! The parse tree of a grammar text, as the parser of grammar texts hands
//! it on.

use vstd::prelude::*;

verus! {

/// An identifier.
#[derive(Debug)]
pub struct IdentifierNode {
    /// The name.
    pub text: String,
    /// Byte offset in the grammar at which it starts.
    pub start: usize,
    /// Byte offset in the grammar at which it ends.
    pub end: usize,
}

/// An annotation before a statement: `#name` or `#name(args)`.
#[derive(Debug)]
pub struct AnnotationNode {
    /// The name, without the `#`.
    pub name: String,
    /// The arguments.
    pub args: Vec<String>,
    /// Byte offset in the grammar at which it starts.
    pub start: usize,
    /// Byte offset in the grammar at which it ends.
    pub end: usize,
}

/// A sign before a term.
#[derive(Clone, Copy, Debug, PartialEq, Eq, Structural)]
pub enum PrefixNode {
    /// `!`
    Prefix0,
    /// `&`
    Prefix1,
    /// `^`
    Prefix2,
}

/// A sign after a term.
#[derive(Clone, Copy, Debug, PartialEq, Eq, Structural)]
pub enum SuffixNode {
    /// `?`
    Suffix0,
    /// `*`
    Suffix1,
    /// `+`
    Suffix2,
}

/// A truth value.
#[derive(Clone, Copy, Debug, PartialEq, Eq, Structural)]
pub enum BooleanNode {
    /// `true`
    Boolean0,
    /// `false`
    Boolean1,
}

/// A text between quotes, with its quotes.
#[derive(Debug)]
pub enum StringNode {
    /// Between single quotes.
    String0(String),
    /// Between double quotes.
    String1(String),
}

/// A text with its place in the grammar.
#[derive(Debug)]
pub struct TextNode {
    /// The text.
    pub text: String,
    /// Byte offset in the grammar at which it starts.
    pub start: usize,
    /// Byte offset in the grammar at which it ends.
    pub end: usize,
}

/// A call of a function.
#[derive(Debug)]
pub struct FunctionCallNode {
    /// The name of the function.
    pub name: IdentifierNode,
    /// The arguments.
    pub args: Vec<ExpressionNode>,
}

/// What a term is made of.
#[derive(Debug)]
pub enum AtomicNode {
    /// An expression between parentheses.
    Atomic0(Box<ExpressionNode>),
    /// A truth value.
    Boolean(BooleanNode),
    /// A call of a function.
    FunctionCall(Box<FunctionCallNode>),
    /// A reference to a rule.
    Identifier(IdentifierNode),
    /// A regular expression between slashes, with its slashes.
    RegexEmbed(TextNode),
    /// A class of code points between brackets, with its brackets.
    RegexRange(TextNode),
    /// A text between quotes.
    String(StringNode),
}

/// A term: an atomic part between signs.
#[derive(Debug)]
pub struct TermNode {
    /// The signs before, in the order of the text.
    pub prefix: Vec<PrefixNode>,
    /// The atomic part.
    pub atomic: AtomicNode,
    /// The signs after, in the order of the text.
    pub suffix: Vec<SuffixNode>,
}

/// A term, or a tag, a colon and a term: one or two terms.
#[derive(Debug)]
pub struct ExpressionTagNode {
    /// The terms.
    pub term: Vec<TermNode>,
    /// Byte offset in the grammar at which it starts.
    pub start: usize,
    /// Byte offset in the grammar at which it ends.
    pub end: usize,
}

/// Tagged terms that follow one another closely.
#[derive(Debug)]
pub struct ExpressionSoftNode {
    /// The tagged terms.
    pub expression_tag: Vec<ExpressionTagNode>,
    /// Byte offset in the grammar at which it starts.
    pub start: usize,
    /// Byte offset in the grammar at which it ends.
    pub end: usize,
}

/// Rows of terms that follow one another.
#[derive(Debug)]
pub struct ExpressionHardNode {
    /// The rows.
    pub expression_soft: Vec<ExpressionSoftNode>,
    /// Byte offset in the grammar at which it starts.
    pub start: usize,
    /// Byte offset in the grammar at which it ends.
    pub end: usize,
}

/// Alternatives with `|` between them.
#[derive(Debug)]
pub struct ExpressionNode {
    /// The alternatives.
    pub expression_hard: Vec<ExpressionHardNode>,
    /// Byte offset in the grammar at which it starts.
    pub start: usize,
    /// Byte offset in the grammar at which it ends.
    pub end: usize,
}

/// `grammar! name`
#[derive(Debug)]
pub struct GrammarStatementNode {
    /// The name of the grammar.
    pub identifier: IdentifierNode,
}

/// `class name { expression }`
#[derive(Debug)]
pub struct ClassStatementNode {
    /// The annotations before the statement.
    pub annotations: Vec<AnnotationNode>,
    /// The name of the rule.
    pub name: IdentifierNode,
    /// The body.
    pub expression: ExpressionNode,
    /// Byte offset in the grammar at which the statement starts.
    pub start: usize,
    /// Byte offset in the grammar at which it ends.
    pub end: usize,
}

/// One alternative of a union: `#tag expression`.
#[derive(Debug)]
pub struct UnionBranchNode {
    /// The tag, if the branch has one.
    pub branch_tag: Option<IdentifierNode>,
    /// The expression.
    pub expression: ExpressionHardNode,
}

/// `union name { branch | branch }`
#[derive(Debug)]
pub struct UnionStatementNode {
    /// The annotations before the statement.
    pub annotations: Vec<AnnotationNode>,
    /// The name of the rule.
    pub name: IdentifierNode,
    /// The alternatives.
    pub union_branch: Vec<UnionBranchNode>,
    /// Byte offset in the grammar at which the statement starts.
    pub start: usize,
    /// Byte offset in the grammar at which it ends.
    pub end: usize,
}

/// One member of a group: `name: atomic;`.
#[derive(Debug)]
pub struct GroupPairNode {
    /// The name of the rule.
    pub identifier: IdentifierNode,
    /// The body.
    pub atomic: AtomicNode,
    /// Byte offset in the grammar at which the member starts.
    pub start: usize,
    /// Byte offset in the grammar at which it ends.
    pub end: usize,
}

/// `group name { member member }`
#[derive(Debug)]
pub struct GroupStatementNode {
    /// The annotations before the statement.
    pub annotations: Vec<AnnotationNode>,
    /// The name of the group, if it has one.
    pub identifier: Option<IdentifierNode>,
    /// The members.
    pub group_pair: Vec<GroupPairNode>,
}

/// A statement.
#[derive(Debug)]
pub enum StatementNode {
    /// The name of the grammar.
    GrammarStatement(GrammarStatementNode),
    /// A rule with one expression.
    ClassStatement(ClassStatementNode),
    /// A rule with alternatives.
    UnionStatement(UnionStatementNode),
    /// Rules of one atomic part each.
    GroupStatement(GroupStatementNode),
}

/// A grammar text.
#[derive(Debug)]
pub struct RootNode {
    /// The statements, in the order of the text.
    pub statement: Vec<StatementNode>,
}

} // verus!

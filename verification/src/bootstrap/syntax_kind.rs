//! The kinds of node of the older grammar syntax, by number.

use vstd::prelude::*;

verus! {

/// A kind of node. The kinds are numbered from 1 in the order in which they
/// stand here.
#[allow(non_camel_case_types)]
#[derive(Clone, Copy, Debug, PartialEq, Eq, Structural)]
pub enum SyntaxKind {
    sym_id,
    anon_sym_LBRACE,
    anon_sym_COMMA,
    anon_sym_RBRACE,
    anon_sym_LBRACK,
    anon_sym_RBRACK,
    sym_grammar,
    sym_fragment,
    sym_ignore,
    anon_sym_PIPE,
    anon_sym_EQ,
    anon_sym__EQ,
    anon_sym_AT_EQ,
    anon_sym_CARET_EQ,
    anon_sym_LPAREN,
    anon_sym_RPAREN,
    anon_sym_CARET,
    anon_sym_QMARK,
    anon_sym_STAR,
    anon_sym_PLUS,
    anon_sym_TILDE,
    anon_sym_LT_DASH,
    anon_sym_POUND,
    aux_sym_choice_tag_token1,
    anon_sym_COLON,
    anon_sym_AT,
    anon_sym_DOT,
    sym_unsigned,
    sym__sign,
    anon_sym_SQUOTE,
    aux_sym_string_token1,
    anon_sym_DQUOTE,
    aux_sym_string_token2,
    anon_sym_SLASH,
    aux_sym_regex_long_token1,
    anon_sym_LBRACK_CARET,
    aux_sym_regex_range_item_token1,
    anon_sym_DASH,
    anon_sym_BSLASHp,
    aux_sym_regex_set_token1,
    sym_eos,
    sym_NEWLINE,
    sym_WHITESPACE,
    sym_program,
    sym_statement,
    sym_grammar_statement,
    sym_fragment_statement,
    sym_ignore_statement,
    sym_assign_statement,
    sym_eq,
    sym_expression,
    sym_unary_prefix,
    sym_unary_suffix,
    sym__prefix_op,
    sym__suffix_op,
    sym_concat_expression,
    sym_choice_expression,
    sym_field_expr,
    sym_data,
    sym_choice_tag,
    sym_macro_call,
    sym_string,
    sym_regex_long,
    sym_regex_range,
    sym_regex_range_item,
    sym_regex_range_item_group,
    sym_regex_set,
    aux_sym_program_repeat1,
    aux_sym_grammar_statement_repeat1,
    aux_sym_ignore_statement_repeat1,
    aux_sym_macro_call_repeat1,
    aux_sym_regex_range_repeat1,
}

impl SyntaxKind {
    /// The number of the kind.
    pub open spec fn number(self) -> int {
        match self {
            SyntaxKind::sym_id => 1,
            SyntaxKind::anon_sym_LBRACE => 2,
            SyntaxKind::anon_sym_COMMA => 3,
            SyntaxKind::anon_sym_RBRACE => 4,
            SyntaxKind::anon_sym_LBRACK => 5,
            SyntaxKind::anon_sym_RBRACK => 6,
            SyntaxKind::sym_grammar => 7,
            SyntaxKind::sym_fragment => 8,
            SyntaxKind::sym_ignore => 9,
            SyntaxKind::anon_sym_PIPE => 10,
            SyntaxKind::anon_sym_EQ => 11,
            SyntaxKind::anon_sym__EQ => 12,
            SyntaxKind::anon_sym_AT_EQ => 13,
            SyntaxKind::anon_sym_CARET_EQ => 14,
            SyntaxKind::anon_sym_LPAREN => 15,
            SyntaxKind::anon_sym_RPAREN => 16,
            SyntaxKind::anon_sym_CARET => 17,
            SyntaxKind::anon_sym_QMARK => 18,
            SyntaxKind::anon_sym_STAR => 19,
            SyntaxKind::anon_sym_PLUS => 20,
            SyntaxKind::anon_sym_TILDE => 21,
            SyntaxKind::anon_sym_LT_DASH => 22,
            SyntaxKind::anon_sym_POUND => 23,
            SyntaxKind::aux_sym_choice_tag_token1 => 24,
            SyntaxKind::anon_sym_COLON => 25,
            SyntaxKind::anon_sym_AT => 26,
            SyntaxKind::anon_sym_DOT => 27,
            SyntaxKind::sym_unsigned => 28,
            SyntaxKind::sym__sign => 29,
            SyntaxKind::anon_sym_SQUOTE => 30,
            SyntaxKind::aux_sym_string_token1 => 31,
            SyntaxKind::anon_sym_DQUOTE => 32,
            SyntaxKind::aux_sym_string_token2 => 33,
            SyntaxKind::anon_sym_SLASH => 34,
            SyntaxKind::aux_sym_regex_long_token1 => 35,
            SyntaxKind::anon_sym_LBRACK_CARET => 36,
            SyntaxKind::aux_sym_regex_range_item_token1 => 37,
            SyntaxKind::anon_sym_DASH => 38,
            SyntaxKind::anon_sym_BSLASHp => 39,
            SyntaxKind::aux_sym_regex_set_token1 => 40,
            SyntaxKind::sym_eos => 41,
            SyntaxKind::sym_NEWLINE => 42,
            SyntaxKind::sym_WHITESPACE => 43,
            SyntaxKind::sym_program => 44,
            SyntaxKind::sym_statement => 45,
            SyntaxKind::sym_grammar_statement => 46,
            SyntaxKind::sym_fragment_statement => 47,
            SyntaxKind::sym_ignore_statement => 48,
            SyntaxKind::sym_assign_statement => 49,
            SyntaxKind::sym_eq => 50,
            SyntaxKind::sym_expression => 51,
            SyntaxKind::sym_unary_prefix => 52,
            SyntaxKind::sym_unary_suffix => 53,
            SyntaxKind::sym__prefix_op => 54,
            SyntaxKind::sym__suffix_op => 55,
            SyntaxKind::sym_concat_expression => 56,
            SyntaxKind::sym_choice_expression => 57,
            SyntaxKind::sym_field_expr => 58,
            SyntaxKind::sym_data => 59,
            SyntaxKind::sym_choice_tag => 60,
            SyntaxKind::sym_macro_call => 61,
            SyntaxKind::sym_string => 62,
            SyntaxKind::sym_regex_long => 63,
            SyntaxKind::sym_regex_range => 64,
            SyntaxKind::sym_regex_range_item => 65,
            SyntaxKind::sym_regex_range_item_group => 66,
            SyntaxKind::sym_regex_set => 67,
            SyntaxKind::aux_sym_program_repeat1 => 68,
            SyntaxKind::aux_sym_grammar_statement_repeat1 => 69,
            SyntaxKind::aux_sym_ignore_statement_repeat1 => 70,
            SyntaxKind::aux_sym_macro_call_repeat1 => 71,
            SyntaxKind::aux_sym_regex_range_repeat1 => 72,
        }
    }

    /// The number of the kind.
    pub fn kind_id(self) -> (id: u16)
        ensures
            id == self.number(),
            1 <= id <= 72,
    {
        match self {
            SyntaxKind::sym_id => 1,
            SyntaxKind::anon_sym_LBRACE => 2,
            SyntaxKind::anon_sym_COMMA => 3,
            SyntaxKind::anon_sym_RBRACE => 4,
            SyntaxKind::anon_sym_LBRACK => 5,
            SyntaxKind::anon_sym_RBRACK => 6,
            SyntaxKind::sym_grammar => 7,
            SyntaxKind::sym_fragment => 8,
            SyntaxKind::sym_ignore => 9,
            SyntaxKind::anon_sym_PIPE => 10,
            SyntaxKind::anon_sym_EQ => 11,
            SyntaxKind::anon_sym__EQ => 12,
            SyntaxKind::anon_sym_AT_EQ => 13,
            SyntaxKind::anon_sym_CARET_EQ => 14,
            SyntaxKind::anon_sym_LPAREN => 15,
            SyntaxKind::anon_sym_RPAREN => 16,
            SyntaxKind::anon_sym_CARET => 17,
            SyntaxKind::anon_sym_QMARK => 18,
            SyntaxKind::anon_sym_STAR => 19,
            SyntaxKind::anon_sym_PLUS => 20,
            SyntaxKind::anon_sym_TILDE => 21,
            SyntaxKind::anon_sym_LT_DASH => 22,
            SyntaxKind::anon_sym_POUND => 23,
            SyntaxKind::aux_sym_choice_tag_token1 => 24,
            SyntaxKind::anon_sym_COLON => 25,
            SyntaxKind::anon_sym_AT => 26,
            SyntaxKind::anon_sym_DOT => 27,
            SyntaxKind::sym_unsigned => 28,
            SyntaxKind::sym__sign => 29,
            SyntaxKind::anon_sym_SQUOTE => 30,
            SyntaxKind::aux_sym_string_token1 => 31,
            SyntaxKind::anon_sym_DQUOTE => 32,
            SyntaxKind::aux_sym_string_token2 => 33,
            SyntaxKind::anon_sym_SLASH => 34,
            SyntaxKind::aux_sym_regex_long_token1 => 35,
            SyntaxKind::anon_sym_LBRACK_CARET => 36,
            SyntaxKind::aux_sym_regex_range_item_token1 => 37,
            SyntaxKind::anon_sym_DASH => 38,
            SyntaxKind::anon_sym_BSLASHp => 39,
            SyntaxKind::aux_sym_regex_set_token1 => 40,
            SyntaxKind::sym_eos => 41,
            SyntaxKind::sym_NEWLINE => 42,
            SyntaxKind::sym_WHITESPACE => 43,
            SyntaxKind::sym_program => 44,
            SyntaxKind::sym_statement => 45,
            SyntaxKind::sym_grammar_statement => 46,
            SyntaxKind::sym_fragment_statement => 47,
            SyntaxKind::sym_ignore_statement => 48,
            SyntaxKind::sym_assign_statement => 49,
            SyntaxKind::sym_eq => 50,
            SyntaxKind::sym_expression => 51,
            SyntaxKind::sym_unary_prefix => 52,
            SyntaxKind::sym_unary_suffix => 53,
            SyntaxKind::sym__prefix_op => 54,
            SyntaxKind::sym__suffix_op => 55,
            SyntaxKind::sym_concat_expression => 56,
            SyntaxKind::sym_choice_expression => 57,
            SyntaxKind::sym_field_expr => 58,
            SyntaxKind::sym_data => 59,
            SyntaxKind::sym_choice_tag => 60,
            SyntaxKind::sym_macro_call => 61,
            SyntaxKind::sym_string => 62,
            SyntaxKind::sym_regex_long => 63,
            SyntaxKind::sym_regex_range => 64,
            SyntaxKind::sym_regex_range_item => 65,
            SyntaxKind::sym_regex_range_item_group => 66,
            SyntaxKind::sym_regex_set => 67,
            SyntaxKind::aux_sym_program_repeat1 => 68,
            SyntaxKind::aux_sym_grammar_statement_repeat1 => 69,
            SyntaxKind::aux_sym_ignore_statement_repeat1 => 70,
            SyntaxKind::aux_sym_macro_call_repeat1 => 71,
            SyntaxKind::aux_sym_regex_range_repeat1 => 72,
        }
    }

    /// The kind with the number `id`, for a number from 1 to 72.
    pub fn from_kind_id(id: u16) -> (kind: Option<SyntaxKind>)
        ensures
            kind is Some <==> 1 <= id <= 72,
            kind matches Some(k) ==> k.number() == id,
    {
        if id == 1 {
            Some(SyntaxKind::sym_id)
        } else if id == 2 {
            Some(SyntaxKind::anon_sym_LBRACE)
        } else if id == 3 {
            Some(SyntaxKind::anon_sym_COMMA)
        } else if id == 4 {
            Some(SyntaxKind::anon_sym_RBRACE)
        } else if id == 5 {
            Some(SyntaxKind::anon_sym_LBRACK)
        } else if id == 6 {
            Some(SyntaxKind::anon_sym_RBRACK)
        } else if id == 7 {
            Some(SyntaxKind::sym_grammar)
        } else if id == 8 {
            Some(SyntaxKind::sym_fragment)
        } else if id == 9 {
            Some(SyntaxKind::sym_ignore)
        } else if id == 10 {
            Some(SyntaxKind::anon_sym_PIPE)
        } else if id == 11 {
            Some(SyntaxKind::anon_sym_EQ)
        } else if id == 12 {
            Some(SyntaxKind::anon_sym__EQ)
        } else if id == 13 {
            Some(SyntaxKind::anon_sym_AT_EQ)
        } else if id == 14 {
            Some(SyntaxKind::anon_sym_CARET_EQ)
        } else if id == 15 {
            Some(SyntaxKind::anon_sym_LPAREN)
        } else if id == 16 {
            Some(SyntaxKind::anon_sym_RPAREN)
        } else if id == 17 {
            Some(SyntaxKind::anon_sym_CARET)
        } else if id == 18 {
            Some(SyntaxKind::anon_sym_QMARK)
        } else if id == 19 {
            Some(SyntaxKind::anon_sym_STAR)
        } else if id == 20 {
            Some(SyntaxKind::anon_sym_PLUS)
        } else if id == 21 {
            Some(SyntaxKind::anon_sym_TILDE)
        } else if id == 22 {
            Some(SyntaxKind::anon_sym_LT_DASH)
        } else if id == 23 {
            Some(SyntaxKind::anon_sym_POUND)
        } else if id == 24 {
            Some(SyntaxKind::aux_sym_choice_tag_token1)
        } else if id == 25 {
            Some(SyntaxKind::anon_sym_COLON)
        } else if id == 26 {
            Some(SyntaxKind::anon_sym_AT)
        } else if id == 27 {
            Some(SyntaxKind::anon_sym_DOT)
        } else if id == 28 {
            Some(SyntaxKind::sym_unsigned)
        } else if id == 29 {
            Some(SyntaxKind::sym__sign)
        } else if id == 30 {
            Some(SyntaxKind::anon_sym_SQUOTE)
        } else if id == 31 {
            Some(SyntaxKind::aux_sym_string_token1)
        } else if id == 32 {
            Some(SyntaxKind::anon_sym_DQUOTE)
        } else if id == 33 {
            Some(SyntaxKind::aux_sym_string_token2)
        } else if id == 34 {
            Some(SyntaxKind::anon_sym_SLASH)
        } else if id == 35 {
            Some(SyntaxKind::aux_sym_regex_long_token1)
        } else if id == 36 {
            Some(SyntaxKind::anon_sym_LBRACK_CARET)
        } else if id == 37 {
            Some(SyntaxKind::aux_sym_regex_range_item_token1)
        } else if id == 38 {
            Some(SyntaxKind::anon_sym_DASH)
        } else if id == 39 {
            Some(SyntaxKind::anon_sym_BSLASHp)
        } else if id == 40 {
            Some(SyntaxKind::aux_sym_regex_set_token1)
        } else if id == 41 {
            Some(SyntaxKind::sym_eos)
        } else if id == 42 {
            Some(SyntaxKind::sym_NEWLINE)
        } else if id == 43 {
            Some(SyntaxKind::sym_WHITESPACE)
        } else if id == 44 {
            Some(SyntaxKind::sym_program)
        } else if id == 45 {
            Some(SyntaxKind::sym_statement)
        } else if id == 46 {
            Some(SyntaxKind::sym_grammar_statement)
        } else if id == 47 {
            Some(SyntaxKind::sym_fragment_statement)
        } else if id == 48 {
            Some(SyntaxKind::sym_ignore_statement)
        } else if id == 49 {
            Some(SyntaxKind::sym_assign_statement)
        } else if id == 50 {
            Some(SyntaxKind::sym_eq)
        } else if id == 51 {
            Some(SyntaxKind::sym_expression)
        } else if id == 52 {
            Some(SyntaxKind::sym_unary_prefix)
        } else if id == 53 {
            Some(SyntaxKind::sym_unary_suffix)
        } else if id == 54 {
            Some(SyntaxKind::sym__prefix_op)
        } else if id == 55 {
            Some(SyntaxKind::sym__suffix_op)
        } else if id == 56 {
            Some(SyntaxKind::sym_concat_expression)
        } else if id == 57 {
            Some(SyntaxKind::sym_choice_expression)
        } else if id == 58 {
            Some(SyntaxKind::sym_field_expr)
        } else if id == 59 {
            Some(SyntaxKind::sym_data)
        } else if id == 60 {
            Some(SyntaxKind::sym_choice_tag)
        } else if id == 61 {
            Some(SyntaxKind::sym_macro_call)
        } else if id == 62 {
            Some(SyntaxKind::sym_string)
        } else if id == 63 {
            Some(SyntaxKind::sym_regex_long)
        } else if id == 64 {
            Some(SyntaxKind::sym_regex_range)
        } else if id == 65 {
            Some(SyntaxKind::sym_regex_range_item)
        } else if id == 66 {
            Some(SyntaxKind::sym_regex_range_item_group)
        } else if id == 67 {
            Some(SyntaxKind::sym_regex_set)
        } else if id == 68 {
            Some(SyntaxKind::aux_sym_program_repeat1)
        } else if id == 69 {
            Some(SyntaxKind::aux_sym_grammar_statement_repeat1)
        } else if id == 70 {
            Some(SyntaxKind::aux_sym_ignore_statement_repeat1)
        } else if id == 71 {
            Some(SyntaxKind::aux_sym_macro_call_repeat1)
        } else if id == 72 {
            Some(SyntaxKind::aux_sym_regex_range_repeat1)
        } else {
            None
        }
    }
}

/// A kind is the kind of its number.
pub proof fn lemma_kind_of_number(k: SyntaxKind)
    ensures
        1 <= k.number() <= 72,
{
}

} // verus!

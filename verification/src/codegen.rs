//! Text buffers that emitters write grammar symbols and rule names into.

use convert_case::{Case, Casing};
use vstd::prelude::*;
use vstd::string::*;

verus! {

/// What `convert_case` makes of a text in Pascal case.
pub uninterp spec fn pascal_case(s: Seq<char>) -> Seq<char>;

/// What `convert_case` makes of a text in snake case.
pub uninterp spec fn snake_case(s: Seq<char>) -> Seq<char>;

/// `Casing::to_case` with `Case::Pascal`: the words of `s`, each with a
/// capital first letter, without delimiters.
#[verifier::external_body]
fn to_pascal_case(s: &str) -> (r: String)
    ensures
        r@ == pascal_case(s@),
{
    s.to_case(Case::Pascal)
}

/// `Casing::to_case` with `Case::Snake`: the words of `s` in lower case,
/// with `_` between them.
#[verifier::external_body]
fn to_snake_case(s: &str) -> (r: String)
    ensures
        r@ == snake_case(s@),
{
    s.to_case(Case::Snake)
}

/// The text that stands for the code point `token` in a grammar: the code
/// point between single quotes, and a single quote between double quotes.
pub open spec fn quoted_char(token: char) -> Seq<char> {
    if token == '\'' {
        "\"'\""@
    } else {
        seq!['\'', token, '\'']
    }
}

/// The text that a tag adds before a term: nothing for the empty tag, and
/// else the tag and a colon.
pub open spec fn tag_prefix(tag: Seq<char>) -> Seq<char> {
    if tag.len() == 0 {
        Seq::<char>::empty()
    } else {
        tag.push(':')
    }
}

/// Appends the text for the code point `token` to `buffer`.
fn push_quoted_char(buffer: &mut String, token: char)
    ensures
        final(buffer)@ == old(buffer)@ + quoted_char(token),
{
    if token == '\'' {
        buffer.append("\"'\"");
    } else {
        buffer.push('\'');
        buffer.push(token);
        buffer.push('\'');
        proof {
            assert(buffer@ =~= old(buffer)@ + seq!['\'', token, '\'']);
        }
    }
}

/// Appends the text for `tag` to `buffer`.
fn push_tag(buffer: &mut String, tag: &str)
    ensures
        final(buffer)@ == old(buffer)@ + tag_prefix(tag@),
{
    if tag.is_empty() {
        proof {
            assert(buffer@ =~= buffer@ + Seq::<char>::empty());
        }
    } else {
        buffer.append(tag);
        buffer.push(':');
    }
}

/// A buffer for a grammar in PEG notation.
#[derive(Clone, Debug)]
pub struct PegBuffer {
    /// The text written so far.
    pub buffer: String,
}

impl PegBuffer {
    /// An empty buffer.
    pub fn new() -> (b: PegBuffer)
        ensures
            b.buffer@.len() == 0,
    {
        PegBuffer { buffer: String::new() }
    }

    /// Opens a group.
    pub fn write_start(&mut self)
        ensures
            final(self).buffer@ == old(self).buffer@ + "("@,
    {
        self.buffer.append("(");
    }

    /// Closes a group.
    pub fn write_end(&mut self)
        ensures
            final(self).buffer@ == old(self).buffer@ + ")"@,
    {
        self.buffer.append(")");
    }

    /// Ends a rule: a semicolon and an empty line.
    pub fn semicolon(&mut self)
        ensures
            final(self).buffer@ == old(self).buffer@ + ";\n\n"@,
    {
        self.buffer.append(";\n\n");
    }

    /// Writes `tag` and a colon, or nothing for the empty tag.
    pub fn tag(&mut self, tag: &str)
        ensures
            final(self).buffer@ == old(self).buffer@ + tag_prefix(tag@),
    {
        push_tag(&mut self.buffer, tag);
    }

    /// Writes the code point `token` between quotes.
    pub fn char_token(&mut self, token: char)
        ensures
            final(self).buffer@ == old(self).buffer@ + quoted_char(token),
    {
        push_quoted_char(&mut self.buffer, token);
    }
}

/// A buffer for Rust source text, with the affixes of the names of rules.
#[derive(Clone, Debug)]
pub struct RustCodegen {
    /// The text written so far.
    pub buffer: String,
    /// What the name of every rule starts with.
    pub rule_prefix: String,
    /// What the name of every rule ends with.
    pub rule_suffix: String,
}

impl RustCodegen {
    /// The name of the type for the rule `name`: prefix, name and suffix
    /// with `_` between them, in Pascal case.
    pub fn get_class_name(&self, name: &str) -> (out: String)
        ensures
            out@ == pascal_case(
                self.rule_prefix@ + "_"@ + name@ + "_"@ + self.rule_suffix@,
            ),
    {
        let mut full = self.rule_prefix.clone();
        full.append("_");
        full.append(name);
        full.append("_");
        full.append(self.rule_suffix.as_str());
        to_pascal_case(full.as_str())
    }

    /// The name of the function that parses the rule `name`: `consume_`,
    /// prefix, `_` and name, in snake case.
    pub fn get_parse_name(&self, name: &str) -> (out: String)
        ensures
            out@ == snake_case("consume_"@ + self.rule_prefix@ + "_"@ + name@),
    {
        let mut full = "consume_".to_owned();
        full.append(self.rule_prefix.as_str());
        full.append("_");
        full.append(name);
        to_snake_case(full.as_str())
    }

    /// Opens a group.
    pub fn write_start(&mut self)
        ensures
            final(self).buffer@ == old(self).buffer@ + "("@,
            final(self).rule_prefix == old(self).rule_prefix,
            final(self).rule_suffix == old(self).rule_suffix,
    {
        self.buffer.append("(");
    }

    /// Closes a group.
    pub fn write_end(&mut self)
        ensures
            final(self).buffer@ == old(self).buffer@ + ")"@,
            final(self).rule_prefix == old(self).rule_prefix,
            final(self).rule_suffix == old(self).rule_suffix,
    {
        self.buffer.append(")");
    }

    /// Ends a statement: a semicolon and an empty line.
    pub fn semicolon(&mut self)
        ensures
            final(self).buffer@ == old(self).buffer@ + ";\n\n"@,
            final(self).rule_prefix == old(self).rule_prefix,
            final(self).rule_suffix == old(self).rule_suffix,
    {
        self.buffer.append(";\n\n");
    }

    /// Writes `tag` and a colon, or nothing for the empty tag.
    pub fn tag(&mut self, tag: &str)
        ensures
            final(self).buffer@ == old(self).buffer@ + tag_prefix(tag@),
            final(self).rule_prefix == old(self).rule_prefix,
            final(self).rule_suffix == old(self).rule_suffix,
    {
        push_tag(&mut self.buffer, tag);
    }

    /// Writes the code point `token` between quotes.
    pub fn char_token(&mut self, token: char)
        ensures
            final(self).buffer@ == old(self).buffer@ + quoted_char(token),
            final(self).rule_prefix == old(self).rule_prefix,
            final(self).rule_suffix == old(self).rule_suffix,
    {
        push_quoted_char(&mut self.buffer, token);
    }
}

/// The text of a parser function that matches one code point of the
/// Unicode class `name`.
pub open spec fn unicode_rule_text(name: Seq<char>) -> Seq<char> {
    "\n#[inline]\nfn "@ + name + "(state: RuleState) -> RuleResult {\n    state.match_char_by(pest::unicode::"@
        + name + ")\n}\n\n"@
}

/// Writes the parser function for the Unicode class `fn_name`.
pub fn sealed_unicode(f: &mut String, fn_name: &str)
    ensures
        final(f)@ == old(f)@ + unicode_rule_text(fn_name@),
{
    f.append("\n#[inline]\nfn ");
    f.append(fn_name);
    f.append("(state: RuleState) -> RuleResult {\n    state.match_char_by(pest::unicode::");
    f.append(fn_name);
    f.append(")\n}\n\n");
    proof {
        assert(f@ =~= old(f)@ + unicode_rule_text(fn_name@));
    }
}

/// Writes the parser function that skips what is ignored: empty lines, as
/// nothing is ignored.
pub fn sealed_skip(f: &mut String)
    ensures
        final(f)@ == old(f)@ + "\n\n\n"@,
{
    f.append("\n\n\n");
}

/// Writes the parser functions `ANY`, `EOI` and `SOI`.
pub fn sealed_final(f: &mut String)
    ensures
        final(f)@ == old(f)@
            + "\n#[inline]\npub fn ANY(state: RuleState) -> RuleResult {\n    state.skip(1)\n}\n\n#[inline]\npub fn EOI(state: RuleState) -> RuleResult {\n    state.rule(Rule::EOI, |state| state.end_of_input())\n}\n\n#[inline]\npub fn SOI(state: RuleState) -> RuleResult {\n    state.start_of_input()\n}\n\n"@,
{
    f.append(
        "\n#[inline]\npub fn ANY(state: RuleState) -> RuleResult {\n    state.skip(1)\n}\n\n#[inline]\npub fn EOI(state: RuleState) -> RuleResult {\n    state.rule(Rule::EOI, |state| state.end_of_input())\n}\n\n#[inline]\npub fn SOI(state: RuleState) -> RuleResult {\n    state.start_of_input()\n}\n\n",
    );
}

} // verus!

//! Errors with their place in the text and the line that they are on.

use crate::position::{line_end, line_start, Position};
use crate::span::{split_lines, TextSpan};
use crate::text::char_index;
use crate::strings::{from_chars, join, joined, to_chars, views};
use vstd::prelude::*;
use vstd::string::*;

verus! {

/// What went wrong.
#[derive(Clone, Debug)]
#[allow(inconsistent_fields)]
pub enum ErrorKind<R> {
    /// The text does not match: the rules that were tried at the furthest
    /// offset that the parse reached.
    ParsingError {
        /// Rules that were expected there.
        positives: Vec<R>,
        /// Rules that were not to match there.
        negatives: Vec<R>,
    },
    /// A node is not of the kind that was asked for.
    InvalidNode {
        /// The rule that was asked for.
        expect: R,
    },
    /// A node does not carry the tag that was asked for.
    InvalidTag {
        /// The tag that was asked for.
        expect: String,
    },
    /// Any other error, with its message.
    CustomError {
        /// Short explanation.
        message: String,
    },
}

/// Where in the text an error is.
#[derive(Clone, Copy, Debug, PartialEq, Eq)]
pub enum InputLocation {
    /// At a byte offset.
    Pos(usize),
    /// Between two byte offsets.
    Span((usize, usize)),
}

/// True when `lc` is the line and the column of the code point at the index
/// `at` of `text`, both counted from 1.
pub open spec fn line_column_at(text: Seq<char>, at: int, lc: (usize, usize)) -> bool {
    lc.0 == 1 + crate::position::count_newlines(text.take(at)) && lc.1 == 1 + at - line_start(
        text,
        at,
    )
}

/// Where in the text an error is, as lines and columns counted from 1.
#[derive(Clone, Copy, Debug, PartialEq, Eq)]
pub enum LineColLocation {
    /// At one place.
    Pos((usize, usize)),
    /// Between two places.
    Span((usize, usize), (usize, usize)),
}

impl LineColLocation {
    /// Line and column of a position.
    pub fn from_position(p: Position<'_>) -> (l: LineColLocation)
        requires
            p.wf(),
        ensures
            l matches LineColLocation::Pos(lc) && line_column_at(p.text(), p.index(), lc),
    {
        LineColLocation::Pos(p.line_column())
    }

    /// Lines and columns of the two ends of a span.
    pub fn from_span(s: TextSpan<'_>) -> (l: LineColLocation)
        requires
            s.wf(),
        ensures
            l matches LineColLocation::Span(a, b) && line_column_at(
                s.text(),
                char_index(s.text(), s.start_offset()),
                a,
            ) && line_column_at(s.text(), char_index(s.text(), s.end_offset()), b),
    {
        let (a, b) = s.split();
        LineColLocation::Span(a.line_column(), b.line_column())
    }
}

/// True for a line feed and for a carriage return.
pub open spec fn is_line_break(c: char) -> bool {
    c == '\n' || c == '\r'
}

/// The visible sign for a line break, and any other code point as it is.
pub open spec fn shown(c: char) -> char {
    if c == '\r' {
        '\u{240D}'
    } else if c == '\n' {
        '\u{240A}'
    } else {
        c
    }
}

/// `s` with visible signs in place of its line breaks.
pub open spec fn visualized(s: Seq<char>) -> Seq<char> {
    Seq::new(s.len(), |i: int| shown(s[i]))
}

/// `s` without its line breaks.
pub open spec fn stripped(s: Seq<char>) -> Seq<char>
    decreases s.len(),
{
    if s.len() == 0 {
        Seq::<char>::empty()
    } else if is_line_break(s.last()) {
        stripped(s.drop_last())
    } else {
        stripped(s.drop_last()).push(s.last())
    }
}

/// The names of one or more rules as a phrase: `a`, `a or b`, `a, b, or c`.
pub open spec fn enumerated(names: Seq<Seq<char>>) -> Seq<char> {
    if names.len() == 1 {
        names[0]
    } else if names.len() == 2 {
        names[0] + " or "@ + names[1]
    } else {
        joined(names.drop_last(), ", "@) + ", or "@ + names.last()
    }
}

/// The message of a parsing error whose rules have the given names.
pub open spec fn parsing_text(positives: Seq<Seq<char>>, negatives: Seq<Seq<char>>) -> Seq<char> {
    if negatives.len() > 0 && positives.len() > 0 {
        "unexpected "@ + enumerated(negatives) + "; expected "@ + enumerated(positives)
    } else if negatives.len() > 0 {
        "unexpected "@ + enumerated(negatives)
    } else if positives.len() > 0 {
        "expected "@ + enumerated(positives)
    } else {
        "unknown parsing error"@
    }
}

/// True when the text of a span starts with a line break, or has two code
/// points or more and ends with one.
pub open spec fn shows_breaks(t: Seq<char>) -> bool {
    (t.len() >= 1 && is_line_break(t[0])) || (t.len() >= 2 && is_line_break(t.last()))
}

/// The line that an error at a position shows.
pub open spec fn offset_line(text: Seq<char>, index: int) -> Seq<char> {
    let line = text.subrange(line_start(text, index), line_end(text, index));
    if index < text.len() && is_line_break(text[index]) {
        visualized(line)
    } else {
        stripped(line)
    }
}

/// The first line that an error over a span shows.
pub open spec fn span_line(t: Seq<char>) -> Seq<char> {
    let first = split_lines(t)[0];
    if shows_breaks(t) {
        visualized(first)
    } else {
        stripped(first)
    }
}

/// The last line that an error over a span of several lines shows.
pub open spec fn span_continued_line(t: Seq<char>) -> Option<Seq<char>> {
    let lines = split_lines(t);
    if lines.len() > 1 {
        Some(
            if shows_breaks(t) {
                lines.last()
            } else {
                visualized(lines.last())
            },
        )
    } else {
        None
    }
}

/// `input` with visible signs in place of its line breaks.
pub fn visualize_whitespace(input: &str) -> (out: String)
    ensures
        out@ == visualized(input@),
{
    let chars = to_chars(input);
    let mut out: Vec<char> = Vec::new();
    let mut i: usize = 0;
    while i < chars.len()
        invariant
            i <= chars.len(),
            chars@ == input@,
            out@ == visualized(chars@.take(i as int)),
        decreases chars.len() - i,
    {
        let c = chars[i];
        let d = if c == '\r' {
            '\u{240D}'
        } else if c == '\n' {
            '\u{240A}'
        } else {
            c
        };
        out.push(d);
        proof {
            assert(out@ =~= visualized(chars@.take(i + 1)));
        }
        i = i + 1;
    }
    proof {
        assert(chars@.take(chars.len() as int) =~= chars@);
    }
    from_chars(&out)
}

/// `input` without its line breaks.
pub fn strip_line_breaks(input: &str) -> (out: String)
    ensures
        out@ == stripped(input@),
{
    let chars = to_chars(input);
    let mut out: Vec<char> = Vec::new();
    let mut i: usize = 0;
    while i < chars.len()
        invariant
            i <= chars.len(),
            chars@ == input@,
            out@ == stripped(chars@.take(i as int)),
        decreases chars.len() - i,
    {
        let c = chars[i];
        proof {
            let t = chars@.take(i + 1);
            assert(t.drop_last() =~= chars@.take(i as int));
            assert(t.last() == c);
        }
        if c != '\n' && c != '\r' {
            out.push(c);
        }
        i = i + 1;
    }
    proof {
        assert(chars@.take(chars.len() as int) =~= chars@);
    }
    from_chars(&out)
}

/// The names of one or more rules as a phrase.
pub fn enumerate_names(names: &Vec<String>) -> (out: String)
    requires
        names.len() >= 1,
    ensures
        out@ == enumerated(views(names@)),
{
    let n = names.len();
    let ghost all = views(names@);
    if n == 1 {
        names[0].clone()
    } else if n == 2 {
        let mut out = names[0].clone();
        out.append(" or ");
        out.append(names[1].as_str());
        out
    } else {
        let mut head: Vec<String> = Vec::new();
        let mut i: usize = 0;
        while i < n - 1
            invariant
                n == names.len(),
                n >= 1,
                i <= n - 1,
                head.len() == i,
                views(head@) == views(names@).take(i as int),
            decreases n - i,
        {
            head.push(names[i].clone());
            proof {
                assert(views(head@) =~= views(names@).take(i + 1));
            }
            i = i + 1;
        }
        proof {
            assert(all.take(n - 1) =~= all.drop_last());
        }
        let mut out = join(&head, ", ");
        out.append(", or ");
        out.append(names[n - 1].as_str());
        out
    }
}

/// The message of a parsing error whose rules have the given names.
pub fn parsing_error_text(positives: &Vec<String>, negatives: &Vec<String>) -> (out: String)
    ensures
        out@ == parsing_text(views(positives@), views(negatives@)),
{
    let some_neg = negatives.len() > 0;
    let some_pos = positives.len() > 0;
    if some_neg && some_pos {
        let mut out = "unexpected ".to_owned();
        out.append(enumerate_names(negatives).as_str());
        out.append("; expected ");
        out.append(enumerate_names(positives).as_str());
        out
    } else if some_neg {
        let mut out = "unexpected ".to_owned();
        out.append(enumerate_names(negatives).as_str());
        out
    } else if some_pos {
        let mut out = "expected ".to_owned();
        out.append(enumerate_names(positives).as_str());
        out
    } else {
        "unknown parsing error".to_owned()
    }
}

/// True when `names` are what `f` gave for `rules`, one by one.
pub open spec fn named_by<R, F: Fn(&R) -> String>(f: F, rules: Seq<R>, names: Seq<String>) -> bool {
    &&& names.len() == rules.len()
    &&& forall|i: int| 0 <= i < rules.len() ==> f.ensures((&#[trigger] rules[i],), names[i])
}

/// The names that `f` gives to `rules`.
pub fn rename_all<R, F: Fn(&R) -> String>(rules: &Vec<R>, f: &F) -> (names: Vec<String>)
    requires
        forall|r: R| f.requires((&r,)),
    ensures
        named_by(*f, rules@, names@),
{
    let mut names: Vec<String> = Vec::new();
    let mut i: usize = 0;
    while i < rules.len()
        invariant
            i <= rules.len(),
            names.len() == i,
            forall|r: R| f.requires((&r,)),
            forall|k: int| 0 <= k < i ==> f.ensures((&#[trigger] rules@[k],), names@[k]),
        decreases rules.len() - i,
    {
        let name = f(&rules[i]);
        names.push(name);
        i = i + 1;
    }
    names
}

/// The text that the `Debug` form of `r` gives. Nothing is known of it.
#[verifier::external_body]
pub(crate) fn debug_text<R: core::fmt::Debug>(r: &R) -> (s: String) {
    format!("{:?}", r)
}

/// The `Debug` forms of `rules`.
fn debug_names<R: core::fmt::Debug>(rules: &Vec<R>) -> (names: Vec<String>)
    ensures
        names.len() == rules.len(),
{
    let mut names: Vec<String> = Vec::new();
    let mut i: usize = 0;
    while i < rules.len()
        invariant
            i <= rules.len(),
            names.len() == i,
        decreases rules.len() - i,
    {
        names.push(debug_text(&rules[i]));
        i = i + 1;
    }
    names
}

/// True when `out` is a message of the error `e`, whatever the `Debug`
/// forms of its rules are: what was expected and what was not for a parsing
/// error, the node or the tag that was expected, or the error's own
/// message.
pub open spec fn is_message<R>(e: ErrorKind<R>, out: Seq<char>) -> bool {
    match e {
        ErrorKind::ParsingError { positives, negatives } => exists|
            p: Seq<Seq<char>>,
            n: Seq<Seq<char>>,
        |
            p.len() == positives.len() && n.len() == negatives.len() && out == parsing_text(p, n),
        ErrorKind::InvalidNode { .. } => exists|name: Seq<char>|
            out == "invalid node, expected node "@ + name,
        ErrorKind::InvalidTag { expect } => out == "invalid tag, expected tag "@ + expect@,
        ErrorKind::CustomError { message } => out == message@,
    }
}

/// True when `out` is the error `e` as one line of text: a message of the
/// error, after `parsing error: ` for a parsing error.
pub open spec fn is_text<R>(e: ErrorKind<R>, out: Seq<char>) -> bool {
    if e is ParsingError {
        exists|message: Seq<char>| is_message(e, message) && out == "parsing error: "@ + message
    } else {
        is_message(e, out)
    }
}

impl<R> ErrorKind<R> {
    /// The message of the error, with the rules in their `Debug` form.
    pub fn message(&self) -> (out: String) where R: core::fmt::Debug
        ensures
            is_message(*self, out@),
    {
        match self {
            ErrorKind::ParsingError { positives, negatives } => {
                let p = debug_names(positives);
                let n = debug_names(negatives);
                let out = parsing_error_text(&p, &n);
                proof {
                    assert(views(p@).len() == positives.len());
                    assert(views(n@).len() == negatives.len());
                }
                out
            },
            ErrorKind::InvalidNode { expect } => {
                let mut out = "invalid node, expected node ".to_owned();
                let name = debug_text(expect);
                out.append(name.as_str());
                out
            },
            ErrorKind::InvalidTag { expect } => {
                let mut out = "invalid tag, expected tag ".to_owned();
                out.append(expect.as_str());
                out
            },
            ErrorKind::CustomError { message } => message.clone(),
        }
    }

    /// The error as one line of text: the message, after `parsing error: `
    /// for a parsing error.
    pub fn to_text(&self) -> (out: String) where R: core::fmt::Debug
        ensures
            is_text(*self, out@),
    {
        match self {
            ErrorKind::ParsingError { .. } => {
                let mut out = "parsing error: ".to_owned();
                let message = self.message();
                out.append(message.as_str());
                proof {
                    assert(is_message(*self, message@) && out@ == "parsing error: "@ + message@);
                }
                out
            },
            _ => self.message(),
        }
    }
}

/// An error in a text.
#[derive(Clone, Debug)]
pub struct YggdrasilError<R> {
    /// What went wrong.
    pub variant: ErrorKind<R>,
    /// Where in the text.
    pub location: InputLocation,
    /// Path of the file that holds the text.
    pub path: Option<String>,
    /// The line that the error is on, or the first of them.
    pub line: String,
    /// The last line of an error that runs over several lines.
    pub continued_line: Option<String>,
}

impl<R> YggdrasilError<R> {
    /// The path of the file that holds the text, if it was given.
    pub open spec fn path_view(&self) -> Option<Seq<char>> {
        match self.path {
            Some(p) => Some(p@),
            None => None,
        }
    }

    /// The line that the error is on, or the first of them.
    pub open spec fn line_view(&self) -> Seq<char> {
        self.line@
    }

    /// The last line of an error that runs over several lines.
    pub open spec fn continued_line_view(&self) -> Option<Seq<char>> {
        match self.continued_line {
            Some(p) => Some(p@),
            None => None,
        }
    }

    /// The error `variant` at the position `pos`. The line of the position
    /// is kept without its line breaks, or, where a line break stands at the
    /// position, with visible signs in their place.
    pub fn new_from_offset(variant: ErrorKind<R>, pos: Position<'_>) -> (e: YggdrasilError<R>)
        requires
            pos.wf(),
        ensures
            e.variant == variant,
            e.location == InputLocation::Pos(pos.offset() as usize),
            e.path_view() is None,
            e.continued_line_view() is None,
            e.line_view() == offset_line(pos.text(), pos.index()),
    {
        let next = pos.peek();
        let visualize = match next {
            Some(c) => c == '\n' || c == '\r',
            None => false,
        };
        let line_of = pos.line_of();
        let line = if visualize {
            visualize_whitespace(line_of)
        } else {
            strip_line_breaks(line_of)
        };
        proof {
            crate::text::lemma_offset_to_index(pos.text(), pos.offset());
        }
        YggdrasilError {
            variant,
            location: InputLocation::Pos(pos.pos()),
            path: None,
            line,
            continued_line: None,
        }
    }

    /// The error `variant` over `span`. The first line of the span is kept
    /// as for a position, and the last line where there is more than one.
    pub fn new_from_span(variant: ErrorKind<R>, span: TextSpan<'_>) -> (e: YggdrasilError<R>)
        requires
            span.wf(),
        ensures
            e.variant == variant,
            e.location == InputLocation::Span(
                (span.start_offset() as usize, span.end_offset() as usize),
            ),
            e.path_view() is None,
            e.line_view() == span_line(span.covered()),
            e.continued_line_view() == span_continued_line(span.covered()),
    {
        let lines = span.lines();
        let text = to_chars(span.as_str());
        let n = text.len();
        let visualize = (n >= 1 && (text[0] == '\n' || text[0] == '\r')) || (n >= 2 && (text[n
            - 1] == '\n' || text[n - 1] == '\r'));
        proof {
            assert(split_lines(span.covered()).len() >= 1);
        }
        let first = lines[0];
        let line = if visualize {
            visualize_whitespace(first)
        } else {
            strip_line_breaks(first)
        };
        let continued_line = if lines.len() > 1 {
            let last = lines[lines.len() - 1];
            if visualize {
                Some(last.to_owned())
            } else {
                Some(visualize_whitespace(last))
            }
        } else {
            None
        };
        YggdrasilError {
            variant,
            location: InputLocation::Span((span.start(), span.end())),
            path: None,
            line,
            continued_line,
        }
    }

    /// A node under `span` is not of the kind `expect`.
    pub fn invalid_node(expect: R, span: TextSpan<'_>) -> (e: YggdrasilError<R>)
        requires
            span.wf(),
        ensures
            e.variant == (ErrorKind::InvalidNode { expect }),
            e.location == InputLocation::Span(
                (span.start_offset() as usize, span.end_offset() as usize),
            ),
            e.path_view() is None,
            e.line_view() == span_line(span.covered()),
            e.continued_line_view() == span_continued_line(span.covered()),
    {
        Self::new_from_span(ErrorKind::InvalidNode { expect }, span)
    }

    /// A node under `span` lacks the tag `expect`.
    pub fn missing_tag(expect: String, span: TextSpan<'_>) -> (e: YggdrasilError<R>)
        requires
            span.wf(),
        ensures
            e.variant == (ErrorKind::<R>::InvalidTag { expect }),
            e.location == InputLocation::Span(
                (span.start_offset() as usize, span.end_offset() as usize),
            ),
            e.path_view() is None,
            e.line_view() == span_line(span.covered()),
            e.continued_line_view() == span_continued_line(span.covered()),
    {
        Self::new_from_span(ErrorKind::InvalidTag { expect }, span)
    }

    /// No node of the rule `expect` stands under `span`.
    pub fn missing_rule(expect: R, span: TextSpan<'_>) -> (e: YggdrasilError<R>)
        requires
            span.wf(),
        ensures
            e.variant == (ErrorKind::InvalidNode { expect }),
            e.location == InputLocation::Span(
                (span.start_offset() as usize, span.end_offset() as usize),
            ),
            e.path_view() is None,
            e.line_view() == span_line(span.covered()),
            e.continued_line_view() == span_continued_line(span.covered()),
    {
        Self::new_from_span(ErrorKind::InvalidNode { expect }, span)
    }

    /// An error over `span` with a message of its own.
    pub fn custom_error(message: &str, span: TextSpan<'_>) -> (e: YggdrasilError<R>)
        requires
            span.wf(),
        ensures
            e.variant matches ErrorKind::CustomError { message: m } && m@ == message@,
            e.location == InputLocation::Span(
                (span.start_offset() as usize, span.end_offset() as usize),
            ),
            e.path_view() is None,
            e.line_view() == span_line(span.covered()),
            e.continued_line_view() == span_continued_line(span.covered()),
    {
        Self::new_from_span(ErrorKind::CustomError { message: message.to_owned() }, span)
    }

    /// The same error, with the path of the file that holds the text.
    pub fn with_path(self, path: &str) -> (e: YggdrasilError<R>)
        ensures
            e.variant == self.variant,
            e.location == self.location,
            e.path_view() == Some(path@),
            e.line_view() == self.line_view(),
            e.continued_line_view() == self.continued_line_view(),
    {
        let mut e = self;
        e.path = Some(path.to_owned());
        e
    }

    /// The path of the file that holds the text, if it was given.
    pub fn path(&self) -> (p: Option<&str>)
        ensures
            match p {
                Some(s) => self.path_view() == Some(s@),
                None => self.path_view() is None,
            },
    {
        match &self.path {
            Some(s) => Some(s.as_str()),
            None => None,
        }
    }

    /// The line that the error is on.
    pub fn line(&self) -> (l: &str)
        ensures
            l@ == self.line_view(),
    {
        self.line.as_str()
    }

    /// The last line of an error that runs over several lines.
    pub fn continued_line(&self) -> (p: Option<&str>)
        ensures
            match p {
                Some(s) => self.continued_line_view() == Some(s@),
                None => self.continued_line_view() is None,
            },
    {
        match &self.continued_line {
            Some(s) => Some(s.as_str()),
            None => None,
        }
    }

    /// The message of a parsing error over `positives` and `negatives`,
    /// with each rule under the name that `f` gives it.
    pub fn parsing_error_message<F: Fn(&R) -> String>(
        positives: &Vec<R>,
        negatives: &Vec<R>,
        f: F,
    ) -> (out: String)
        requires
            forall|r: R| f.requires((&r,)),
        ensures
            exists|p: Seq<String>, n: Seq<String>|
                named_by(f, positives@, p) && named_by(f, negatives@, n) && out@ == parsing_text(
                    views(p),
                    views(n),
                ),
    {
        let p = rename_all(positives, &f);
        let n = rename_all(negatives, &f);
        let out = parsing_error_text(&p, &n);
        proof {
            assert(named_by(f, positives@, p@) && named_by(f, negatives@, n@) && out@
                == parsing_text(views(p@), views(n@)));
        }
        out
    }

    /// The names that `f` gives to `rules`, as a phrase.
    pub fn enumerate<F: Fn(&R) -> String>(rules: &Vec<R>, f: F) -> (out: String)
        requires
            rules.len() >= 1,
            forall|r: R| f.requires((&r,)),
        ensures
            exists|names: Seq<String>| named_by(f, rules@, names) && out@ == enumerated(views(names)),
    {
        let names = rename_all(rules, &f);
        let out = enumerate_names(&names);
        proof {
            assert(named_by(f, rules@, names@) && out@ == enumerated(views(names@)));
        }
        out
    }

    /// Turns a parsing error into an error whose message names each rule as
    /// `f` names it. Any other error stays as it is.
    pub fn renamed_rules<F: Fn(&R) -> String>(self, f: F) -> (e: YggdrasilError<R>)
        requires
            forall|r: R| f.requires((&r,)),
        ensures
            e.location == self.location,
            e.path_view() == self.path_view(),
            e.line_view() == self.line_view(),
            e.continued_line_view() == self.continued_line_view(),
            !(self.variant is ParsingError) ==> e.variant == self.variant,
            self.variant matches ErrorKind::ParsingError { positives, negatives } ==> e.variant
                is CustomError && exists|p: Seq<String>, n: Seq<String>|
                named_by(f, positives@, p) && named_by(f, negatives@, n) && e.variant->message@
                    == parsing_text(views(p), views(n)),
    {
        let YggdrasilError { variant, location, path, line, continued_line } = self;
        let variant = match variant {
            ErrorKind::ParsingError { positives, negatives } => {
                let message = Self::parsing_error_message(&positives, &negatives, f);
                ErrorKind::CustomError { message }
            },
            other => other,
        };
        YggdrasilError { variant, location, path, line, continued_line }
    }

    /// The message of the error, with the rules in their `Debug` form.
    pub fn message(&self) -> (out: String) where R: core::fmt::Debug
        ensures
            is_message(self.variant, out@),
    {
        self.variant.message()
    }

    /// The error as one line of text.
    pub fn to_text(&self) -> (out: String) where R: core::fmt::Debug
        ensures
            is_text(self.variant, out@),
    {
        self.variant.to_text()
    }
}

} // verus!

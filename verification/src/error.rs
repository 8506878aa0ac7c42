//! The ways in which parsing a pattern can fail.

use vstd::prelude::*;
use crate::tree::Rule;

verus! {

/// What the recognizer was looking for where it stopped.
#[derive(Debug, Clone, Copy, PartialEq, Eq, Hash, Structural)]
pub enum Expected {
    /// An observation: `[` or `(`.
    Observation,
    /// A comparison: a path, `EXISTS` or `(`.
    Comparison,
    /// A path: an object type.
    Path,
    /// The `:` between an object type and its first property.
    Colon,
    /// The name of a property.
    Property,
    /// An index: digits or `*`.
    Index,
    /// The `]` that closes an index.
    CloseIndex,
    /// A comparison operator.
    Operator,
    /// A constant.
    Value,
    /// The quote that closes a quoted text.
    ClosingQuote,
    /// The `,` or `)` after a constant in a list.
    ListEnd,
    /// The `]` that closes an observation.
    CloseBracket,
    /// The `)` that closes a group.
    CloseParen,
    /// The count after `REPEATS`.
    Count,
    /// `TIMES`.
    Times,
    /// The number after `WITHIN`.
    Number,
    /// `SECONDS`.
    Seconds,
    /// A timestamp: `t'...'`.
    Timestamp,
    /// `STOP`.
    Stop,
    /// The end of the pattern.
    EndOfInput,
}

impl Expected {
    /// A short description for a message.
    pub open spec fn describe(self) -> Seq<char> {
        match self {
            Expected::Observation => "an observation: '[' or '('"@,
            Expected::Comparison => "a comparison: a path, EXISTS or '('"@,
            Expected::Path => "a path"@,
            Expected::Colon => "':'"@,
            Expected::Property => "a property name"@,
            Expected::Index => "an index: digits or '*'"@,
            Expected::CloseIndex => "']' after an index"@,
            Expected::Operator => "a comparison operator"@,
            Expected::Value => "a value"@,
            Expected::ClosingQuote => "a closing quote"@,
            Expected::ListEnd => "',' or ')'"@,
            Expected::CloseBracket => "AND, OR or ']'"@,
            Expected::CloseParen => "')'"@,
            Expected::Count => "a count"@,
            Expected::Times => "TIMES"@,
            Expected::Number => "a number"@,
            Expected::Seconds => "SECONDS"@,
            Expected::Timestamp => "a timestamp"@,
            Expected::Stop => "STOP"@,
            Expected::EndOfInput => "the end of the pattern"@,
        }
    }

    /// A short description for a message.
    pub fn description(&self) -> (text: &'static str)
        ensures
            text@ == self.describe(),
    {
        match self {
            Expected::Observation => "an observation: '[' or '('",
            Expected::Comparison => "a comparison: a path, EXISTS or '('",
            Expected::Path => "a path",
            Expected::Colon => "':'",
            Expected::Property => "a property name",
            Expected::Index => "an index: digits or '*'",
            Expected::CloseIndex => "']' after an index",
            Expected::Operator => "a comparison operator",
            Expected::Value => "a value",
            Expected::ClosingQuote => "a closing quote",
            Expected::ListEnd => "',' or ')'",
            Expected::CloseBracket => "AND, OR or ']'",
            Expected::CloseParen => "')'",
            Expected::Count => "a count",
            Expected::Times => "TIMES",
            Expected::Number => "a number",
            Expected::Seconds => "SECONDS",
            Expected::Timestamp => "a timestamp",
            Expected::Stop => "STOP",
            Expected::EndOfInput => "the end of the pattern",
        }
    }
}

/// The pattern does not follow the grammar: at `position`, counted in
/// characters from the start of the pattern, the recognizer looked for
/// `expected` and found something else.
#[derive(Debug, Clone, Copy, PartialEq, Eq, Hash, Structural)]
pub struct GrammarError {
    pub position: usize,
    pub expected: Expected,
}

/// Why a pattern was rejected. Parsing stops at the first failure.
#[derive(Debug, PartialEq, Eq)]
pub enum ParseError {
    /// The pattern does not follow the grammar.
    Grammar(GrammarError),
    /// Groups are nested deeper than [`crate::grammar::MAX_NESTING_DEPTH`];
    /// the position is that of the `(` that went too far.
    NestingTooDeep(usize),
    /// A concrete tree that was handed to a builder is higher than
    /// [`crate::tree::MAX_TREE_HEIGHT`]. The trees of the recognizer never
    /// are.
    TreeTooDeep,
    /// The text is not an integer, or not one that fits.
    InvalidInt(String),
    /// The text is not a decimal number.
    InvalidFloat(String),
    /// The text is a timestamp in none of the accepted forms.
    InvalidTimestamp(String),
    /// A node of the concrete tree stands for a production that has no place
    /// where it was found.
    UnexpectedRule(Rule),
    /// A node of the concrete tree lacks a child that its production needs.
    MissingElement(&'static str),
}

/// The mathematical value of a [`ParseError`].
pub ghost enum ParseErrorView {
    Grammar(GrammarError),
    NestingTooDeep(usize),
    TreeTooDeep,
    InvalidInt(Seq<char>),
    InvalidFloat(Seq<char>),
    InvalidTimestamp(Seq<char>),
    UnexpectedRule(Rule),
    MissingElement(Seq<char>),
}

impl Clone for ParseError {
    fn clone(&self) -> (copy: Self)
        ensures
            copy@ == self@,
    {
        match self {
            ParseError::Grammar(e) => ParseError::Grammar(*e),
            ParseError::NestingTooDeep(position) => ParseError::NestingTooDeep(*position),
            ParseError::TreeTooDeep => ParseError::TreeTooDeep,
            ParseError::InvalidInt(text) => ParseError::InvalidInt(text.clone()),
            ParseError::InvalidFloat(text) => ParseError::InvalidFloat(text.clone()),
            ParseError::InvalidTimestamp(text) => ParseError::InvalidTimestamp(text.clone()),
            ParseError::UnexpectedRule(rule) => ParseError::UnexpectedRule(*rule),
            ParseError::MissingElement(what) => ParseError::MissingElement(*what),
        }
    }
}

impl View for ParseError {
    type V = ParseErrorView;

    open spec fn view(&self) -> ParseErrorView {
        match self {
            ParseError::Grammar(e) => ParseErrorView::Grammar(*e),
            ParseError::NestingTooDeep(position) => ParseErrorView::NestingTooDeep(*position),
            ParseError::TreeTooDeep => ParseErrorView::TreeTooDeep,
            ParseError::InvalidInt(text) => ParseErrorView::InvalidInt(text@),
            ParseError::InvalidFloat(text) => ParseErrorView::InvalidFloat(text@),
            ParseError::InvalidTimestamp(text) => ParseErrorView::InvalidTimestamp(text@),
            ParseError::UnexpectedRule(rule) => ParseErrorView::UnexpectedRule(*rule),
            ParseError::MissingElement(what) => ParseErrorView::MissingElement(what@),
        }
    }
}

impl ParseErrorView {
    /// The failure is one that a text can have: it departs from the grammar,
    /// nests too deep, or holds an integer that does not fit or a timestamp
    /// in none of the accepted forms.
    pub open spec fn of_text(self) -> bool {
        self is Grammar || self is NestingTooDeep || self is InvalidInt || self is InvalidTimestamp
    }
}

} // verus!

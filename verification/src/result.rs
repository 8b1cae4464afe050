//! Errors: what can go wrong while a text is read, and how it is reported.

use crate::text::{decimal, push_decimal};
use vstd::prelude::*;

verus! {

/// `std::io::Error`: an error of the operating system, carried through as
/// it is. Nothing is known of what it holds.
#[verifier::external_type_specification]
#[verifier::external_body]
pub struct ExIoError(std::io::Error);

/// Error type.
/// - `ParseError`: the text does not follow the grammar. It holds the
///   description of the first violation.
/// - `IoError`: the text could not be read. The parsers never make one; it
///   is there for callers that read files.
#[derive(Debug)]
pub enum Error {
    ParseError(String),
    IoError(std::io::Error),
}

/// The ways in which a text can break one of the two grammars.
#[derive(Clone, Copy, Debug, PartialEq, Eq)]
pub enum SyntaxErrorKind {
    /// A quoted literal is opened and never closed.
    UnterminatedString,
    /// A `?` is not followed by `=`.
    StrayQuestionMark,
    /// A value is expected, and an operator, a `}` or the end of the input
    /// is found.
    ExpectedValue,
    /// A `{` has no matching `}`.
    UnclosedBlock,
    /// A `}` has no matching `{`.
    UnmatchedClose,
    /// Blocks are nested deeper than the bound allows.
    NestingTooDeep,
    /// A localization text has no line that is not blank.
    MissingLanguage,
    /// The first line of a localization text that is not blank is no
    /// language tag.
    InvalidLanguage,
    /// A line of a localization text does not start with a name and a colon.
    InvalidKey,
    /// The number behind the colon does not fit in a byte.
    TagOutOfRange,
    /// What follows the colon and the number is no quoted literal.
    InvalidValue,
}

/// The first violation of a grammar in a text.
#[derive(Clone, Copy, Debug, PartialEq, Eq)]
pub struct SyntaxError {
    pub kind: SyntaxErrorKind,
    /// Where it is: the offset of a character in the text. What reads
    /// tokens has no text, and gives the index of a token.
    pub position: usize,
}

/// The words that describe a kind of violation, up to the position.
pub open spec fn kind_text(kind: SyntaxErrorKind) -> Seq<char> {
    match kind {
        SyntaxErrorKind::UnterminatedString => "quoted literal is never closed, at offset "@,
        SyntaxErrorKind::StrayQuestionMark => "`?` is not followed by `=`, at offset "@,
        SyntaxErrorKind::ExpectedValue => "a value is expected, at offset "@,
        SyntaxErrorKind::UnclosedBlock => "`{` is never closed, at offset "@,
        SyntaxErrorKind::UnmatchedClose => "`}` closes nothing, at offset "@,
        SyntaxErrorKind::NestingTooDeep => "blocks are nested too deep, at offset "@,
        SyntaxErrorKind::MissingLanguage => "the language line is missing, at offset "@,
        SyntaxErrorKind::InvalidLanguage => "the language line is malformed, at offset "@,
        SyntaxErrorKind::InvalidKey => "a line does not start with a name and `:`, at offset "@,
        SyntaxErrorKind::TagOutOfRange => "the number after `:` is above 255, at offset "@,
        SyntaxErrorKind::InvalidValue => "the value is not a quoted literal, at offset "@,
    }
}

/// The description of a violation: the words for its kind, then its
/// position in decimal.
pub open spec fn message_text(e: SyntaxError) -> Seq<char> {
    kind_text(e.kind) + decimal(e.position as nat)
}

/// The text that an error is shown as, up to the description it carries.
pub open spec fn error_prefix(e: Error) -> Seq<char> {
    match e {
        Error::ParseError(_) => "ParseError: "@,
        Error::IoError(_) => "IoError: "@,
    }
}

impl SyntaxError {
    /// The description of this violation.
    pub fn message(&self) -> (s: String)
        ensures
            s@ == message_text(*self),
    {
        let words: &str = match self.kind {
            SyntaxErrorKind::UnterminatedString => "quoted literal is never closed, at offset ",
            SyntaxErrorKind::StrayQuestionMark => "`?` is not followed by `=`, at offset ",
            SyntaxErrorKind::ExpectedValue => "a value is expected, at offset ",
            SyntaxErrorKind::UnclosedBlock => "`{` is never closed, at offset ",
            SyntaxErrorKind::UnmatchedClose => "`}` closes nothing, at offset ",
            SyntaxErrorKind::NestingTooDeep => "blocks are nested too deep, at offset ",
            SyntaxErrorKind::MissingLanguage => "the language line is missing, at offset ",
            SyntaxErrorKind::InvalidLanguage => "the language line is malformed, at offset ",
            SyntaxErrorKind::InvalidKey => "a line does not start with a name and `:`, at offset ",
            SyntaxErrorKind::TagOutOfRange => "the number after `:` is above 255, at offset ",
            SyntaxErrorKind::InvalidValue => "the value is not a quoted literal, at offset ",
        };
        let mut s = String::from_str(words);
        push_decimal(&mut s, self.position);
        s
    }

    /// The error that reports this violation to a caller.
    pub fn into_error(self) -> (e: Error)
        ensures
            e.reports(self),
    {
        Error::ParseError(self.message())
    }
}

/// `<std::io::Error as ToString>::to_string`: the words in which the
/// operating system's error is shown. Nothing is claimed of them.
#[verifier::external_body]
fn io_error_text(e: &std::io::Error) -> (s: String) {
    e.to_string()
}

impl Error {
    /// Whether this error is the report of the violation `e`: a
    /// `ParseError` that holds its description.
    pub open spec fn reports(self, e: SyntaxError) -> bool {
        match self {
            Error::ParseError(m) => m@ == message_text(e),
            Error::IoError(_) => false,
        }
    }

    /// The text that this error is shown as: `ParseError: ` or `IoError: `,
    /// then the description. That of a `ParseError` is the one it holds.
    pub fn message(&self) -> (s: String)
        ensures
            error_prefix(*self).is_prefix_of(s@),
            self matches Error::ParseError(m) ==> s@ == error_prefix(*self) + m@,
    {
        match self {
            Error::ParseError(m) => {
                let mut s = String::from_str("ParseError: ");
                s.append(m.as_str());
                s
            },
            Error::IoError(e) => {
                let mut s = String::from_str("IoError: ");
                let words = io_error_text(e);
                s.append(words.as_str());
                s
            },
        }
    }
}

} // verus!

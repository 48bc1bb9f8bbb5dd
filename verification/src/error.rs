//! What can be wrong with an expression.
use vstd::prelude::*;

verus! {

/// Why an expression could not be parsed, or not parsed yet.
#[derive(Debug, PartialEq, Eq)]
pub enum ParseError {
    /// The option stands last and lacks its operand.
    MissingArgument(&'static str),
    /// An expression is called for where the arguments end.
    MissingExpression,
    /// A `(` without its `)`.
    MissingClosingParen,
    /// The operand of `-type` is no known type.
    UnknownType(String),
    /// The operand of the depth option is no number.
    InvalidDepth(&'static str),
    /// The operand of `-size` is no size.
    InvalidSize(String),
    /// The operand of `-size` is a size of more bytes than 64 bits count.
    SizeOverflow(String),
    /// The operand of `-mtime` is no number of days.
    InvalidMtime(String),
    /// The word starts no predicate.
    UnknownPredicate(String),
    /// The modification time of the file, the operand of `-newer`, has to be supplied.
    NeedMtime(String),
}

/// The mathematical form of a [`ParseError`].
pub enum Failure {
    MissingArgument(Seq<char>),
    MissingExpression,
    MissingClosingParen,
    UnknownType(Seq<char>),
    InvalidDepth(Seq<char>),
    InvalidSize(Seq<char>),
    SizeOverflow(Seq<char>),
    InvalidMtime(Seq<char>),
    UnknownPredicate(Seq<char>),
    NeedMtime(Seq<char>),
}

impl View for ParseError {
    type V = Failure;

    open spec fn view(&self) -> Failure {
        match *self {
            ParseError::MissingArgument(opt) => Failure::MissingArgument(opt@),
            ParseError::MissingExpression => Failure::MissingExpression,
            ParseError::MissingClosingParen => Failure::MissingClosingParen,
            ParseError::UnknownType(arg) => Failure::UnknownType(arg@),
            ParseError::InvalidDepth(opt) => Failure::InvalidDepth(opt@),
            ParseError::InvalidSize(arg) => Failure::InvalidSize(arg@),
            ParseError::SizeOverflow(arg) => Failure::SizeOverflow(arg@),
            ParseError::InvalidMtime(arg) => Failure::InvalidMtime(arg@),
            ParseError::UnknownPredicate(word) => Failure::UnknownPredicate(word@),
            ParseError::NeedMtime(file) => Failure::NeedMtime(file@),
        }
    }
}

/// The line that reports a failure. A size too large to count is not reported but ends the program,
/// and a modification time is supplied.
pub open spec fn report(failure: Failure) -> Option<Seq<char>> {
    match failure {
        Failure::MissingArgument(opt) => Some("find: "@ + opt + " requires an argument"@),
        Failure::MissingExpression => Some("find: missing expression"@),
        Failure::MissingClosingParen => Some("find: missing closing ')'"@),
        Failure::UnknownType(arg) => Some("find: unknown type '"@ + arg + "'"@),
        Failure::InvalidDepth(opt) => Some("find: "@ + opt + " requires a non-negative integer"@),
        Failure::InvalidSize(arg) => Some("find: invalid size '"@ + arg + "'"@),
        Failure::SizeOverflow(_) => None,
        Failure::InvalidMtime(arg) => Some("find: invalid -mtime value '"@ + arg + "'"@),
        Failure::UnknownPredicate(word) => Some("find: unknown predicate '"@ + word + "'"@),
        Failure::NeedMtime(_) => None,
    }
}

/// `start`, `middle` and `end` in a row.
fn join(start: &str, middle: &str, end: &str) -> (all: String)
    ensures
        all@ == start@ + middle@ + end@,
{
    let mut all = start.to_owned();
    all.append(middle);
    all.append(end);
    all
}

impl ParseError {
    /// The line that reports the error, where there is one.
    pub fn message(&self) -> (line: Option<String>)
        ensures
            match line {
                Some(text) => report(self@) == Some(text@),
                None => report(self@) is None,
            },
    {
        match self {
            ParseError::MissingArgument(opt) => Some(join("find: ", opt, " requires an argument")),
            ParseError::MissingExpression => Some("find: missing expression".to_owned()),
            ParseError::MissingClosingParen => Some("find: missing closing ')'".to_owned()),
            ParseError::UnknownType(arg) => Some(join("find: unknown type '", arg.as_str(), "'")),
            ParseError::InvalidDepth(opt) => Some(
                join("find: ", opt, " requires a non-negative integer"),
            ),
            ParseError::InvalidSize(arg) => Some(join("find: invalid size '", arg.as_str(), "'")),
            ParseError::SizeOverflow(_) => None,
            ParseError::InvalidMtime(arg) => Some(
                join("find: invalid -mtime value '", arg.as_str(), "'"),
            ),
            ParseError::UnknownPredicate(word) => Some(
                join("find: unknown predicate '", word.as_str(), "'"),
            ),
            ParseError::NeedMtime(_) => None,
        }
    }
}

/// An error is seen as the failure of the same name, about the same text.
pub proof fn errors_are_seen_as_they_are(e: ParseError)
    ensures
        match e {
            ParseError::MissingArgument(t) => e@ == Failure::MissingArgument(t@),
            ParseError::MissingExpression => e@ == Failure::MissingExpression,
            ParseError::MissingClosingParen => e@ == Failure::MissingClosingParen,
            ParseError::UnknownType(t) => e@ == Failure::UnknownType(t@),
            ParseError::InvalidDepth(t) => e@ == Failure::InvalidDepth(t@),
            ParseError::InvalidSize(t) => e@ == Failure::InvalidSize(t@),
            ParseError::SizeOverflow(t) => e@ == Failure::SizeOverflow(t@),
            ParseError::InvalidMtime(t) => e@ == Failure::InvalidMtime(t@),
            ParseError::UnknownPredicate(t) => e@ == Failure::UnknownPredicate(t@),
            ParseError::NeedMtime(t) => e@ == Failure::NeedMtime(t@),
        },
{
}

/// A report says what is wrong, and of which word, whatever the word is.
pub proof fn reports_quote_the_word(t: Seq<char>)
    ensures
        report(Failure::MissingArgument(t)) == Some("find: "@ + t + " requires an argument"@),
        report(Failure::InvalidDepth(t)) == Some(
            "find: "@ + t + " requires a non-negative integer"@,
        ),
        report(Failure::UnknownType(t)) == Some("find: unknown type '"@ + t + "'"@),
        report(Failure::InvalidSize(t)) == Some("find: invalid size '"@ + t + "'"@),
        report(Failure::InvalidMtime(t)) == Some("find: invalid -mtime value '"@ + t + "'"@),
        report(Failure::UnknownPredicate(t)) == Some("find: unknown predicate '"@ + t + "'"@),
        report(Failure::MissingExpression) == Some("find: missing expression"@),
        report(Failure::MissingClosingParen) == Some("find: missing closing ')'"@),
        report(Failure::SizeOverflow(t)) is None,
        report(Failure::NeedMtime(t)) is None,
{
}

} // verus!

//! What can go wrong between the text of a tree and its representation.

use vstd::prelude::*;
use vstd::string::*;

verus! {

/// The tree is not well formed. Each variant but the first carries the line
/// of the offending token.
#[derive(Debug, Clone, Copy, PartialEq, Eq)]
pub enum ParseError {
    /// The text holds no line but blank ones.
    EmptyInput,
    /// A connector where the root is expected, or a connector with no text
    /// behind it.
    UnexpectedToken { line: usize },
    /// A line that lines up with none of the open levels.
    InconsistentIndentation { line: usize },
    /// A second line without a connector.
    MultipleRoots { line: usize },
}

/// A condition stands where only a description can: below an action.
#[derive(Debug, Clone, Copy, PartialEq, Eq)]
pub struct ClassificationError {
    pub line: usize,
}

/// The tree cannot be turned into a contract. Each variant carries the line
/// of the offending node.
#[derive(Debug, Clone, Copy, PartialEq, Eq)]
pub enum BuildError {
    /// A condition that is a keyword and nothing else.
    MalformedCondition { line: usize },
    /// A condition with no action anywhere below it.
    NoActionsForCondition { line: usize },
    /// A definition whose identifier an earlier definition has already.
    IdentifierCollision { line: usize },
}

/// Any failure of the translation of one tree.
#[derive(Debug, Clone, Copy, PartialEq, Eq)]
pub enum Error {
    Parse(ParseError),
    Classification(ClassificationError),
    Build(BuildError),
}

/// The decimal digit of a number below ten.
pub open spec fn digit(d: nat) -> char {
    ((48 + d) as u8) as char
}

/// A number in decimal notation.
pub open spec fn decimal(n: nat) -> Seq<char>
    decreases n,
{
    if n < 10 {
        seq![digit(n)]
    } else {
        decimal(n / 10).push(digit(n % 10))
    }
}

/// Appends `n` in decimal notation.
pub fn push_decimal(out: &mut String, n: usize)
    ensures
        final(out)@ == old(out)@ + decimal(n as nat),
    decreases n,
{
    if n >= 10 {
        push_decimal(out, n / 10);
    }
    let d: u8 = (n % 10) as u8;
    out.push((48 + d) as char);
    assert(out@ =~= old(out)@ + decimal(n as nat));
}

/// The words for a fault at a line: `line`, the number, a colon and what
/// is wrong.
pub open spec fn at_line(line: usize, what: Seq<char>) -> Seq<char> {
    "line "@ + decimal(line as nat) + ": "@ + what
}

/// A parse error in words.
pub open spec fn parse_error_text(e: ParseError) -> Seq<char> {
    match e {
        ParseError::EmptyInput => "the tree is empty"@,
        ParseError::UnexpectedToken { line } => at_line(line, "unexpected token"@),
        ParseError::InconsistentIndentation { line } => at_line(
            line,
            "inconsistent indentation"@,
        ),
        ParseError::MultipleRoots { line } => at_line(line, "a tree has one root only"@),
    }
}

/// A classification error in words.
pub open spec fn classification_error_text(e: ClassificationError) -> Seq<char> {
    at_line(e.line, "a condition cannot stand below an action"@)
}

/// A build error in words.
pub open spec fn build_error_text(e: BuildError) -> Seq<char> {
    match e {
        BuildError::MalformedCondition { line } => at_line(
            line,
            "a condition needs a phrase after its keyword"@,
        ),
        BuildError::NoActionsForCondition { line } => at_line(
            line,
            "no action below this condition"@,
        ),
        BuildError::IdentifierCollision { line } => at_line(
            line,
            "this identifier is declared already"@,
        ),
    }
}

/// Any error in words.
pub open spec fn error_text(e: Error) -> Seq<char> {
    match e {
        Error::Parse(e) => parse_error_text(e),
        Error::Classification(e) => classification_error_text(e),
        Error::Build(e) => build_error_text(e),
    }
}

/// The words for a fault at a line.
fn message_at(line: usize, what: &str) -> (message: String)
    ensures
        message@ == at_line(line, what@),
{
    let mut message = String::from_str("line ");
    push_decimal(&mut message, line);
    message.append(": ");
    message.append(what);
    message
}

impl ParseError {
    /// The error in words, with the line that it is about.
    pub fn message(&self) -> (message: String)
        ensures
            message@ == parse_error_text(*self),
    {
        match self {
            ParseError::EmptyInput => String::from_str("the tree is empty"),
            ParseError::UnexpectedToken { line } => message_at(*line, "unexpected token"),
            ParseError::InconsistentIndentation { line } => message_at(
                *line,
                "inconsistent indentation",
            ),
            ParseError::MultipleRoots { line } => message_at(*line, "a tree has one root only"),
        }
    }
}

impl ClassificationError {
    /// The error in words, with the line that it is about.
    pub fn message(&self) -> (message: String)
        ensures
            message@ == classification_error_text(*self),
    {
        message_at(self.line, "a condition cannot stand below an action")
    }
}

impl BuildError {
    /// The error in words, with the line that it is about.
    pub fn message(&self) -> (message: String)
        ensures
            message@ == build_error_text(*self),
    {
        match self {
            BuildError::MalformedCondition { line } => message_at(
                *line,
                "a condition needs a phrase after its keyword",
            ),
            BuildError::NoActionsForCondition { line } => message_at(
                *line,
                "no action below this condition",
            ),
            BuildError::IdentifierCollision { line } => message_at(
                *line,
                "this identifier is declared already",
            ),
        }
    }
}

impl Error {
    /// The error in words, with the line that it is about.
    pub fn message(&self) -> (message: String)
        ensures
            message@ == error_text(*self),
    {
        match self {
            Error::Parse(e) => e.message(),
            Error::Classification(e) => e.message(),
            Error::Build(e) => e.message(),
        }
    }
}

} // verus!

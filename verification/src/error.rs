//! The ways a parse can fail, and where.

use vstd::prelude::*;

verus! {

/// Why a parse stopped.
#[derive(Clone, Copy, Debug, PartialEq, Eq, Structural)]
pub enum ErrorKind {
    /// A path was expected and no segment was found.
    EmptyPath,
    /// A path ended in `::` with no segment after it.
    TrailingSeparator,
    /// An element of an argument list, or the member of a record field, began
    /// with a token that can start neither.
    ExpectedIdentifierOrLiteral,
    /// A `,` between elements, a `:` after a member or an `=` after a name
    /// was missing.
    ExpectedSeparatorToken,
    /// A parenthesized or braced group was expected.
    ExpectedDelimiter,
    /// A literal was expected, or a literal token is of a form that the
    /// grammar does not read.
    MalformedLiteral,
    /// The host expression parser turned the tokens down.
    HostExpression,
}

impl ErrorKind {
    /// What a failure of this kind reads as.
    pub open spec fn message_text(self) -> Seq<char> {
        match self {
            ErrorKind::EmptyPath => "expected path"@,
            ErrorKind::TrailingSeparator => "expected path segment"@,
            ErrorKind::ExpectedIdentifierOrLiteral => "expected identifier or literal"@,
            ErrorKind::ExpectedSeparatorToken => "expected separator"@,
            ErrorKind::ExpectedDelimiter => "expected delimited group"@,
            ErrorKind::MalformedLiteral => "expected literal"@,
            ErrorKind::HostExpression => "expected expression"@,
        }
    }

    /// What a failure of this kind reads as.
    pub fn message(&self) -> (text: &'static str)
        ensures
            text@ == self.message_text(),
    {
        match self {
            ErrorKind::EmptyPath => "expected path",
            ErrorKind::TrailingSeparator => "expected path segment",
            ErrorKind::ExpectedIdentifierOrLiteral => "expected identifier or literal",
            ErrorKind::ExpectedSeparatorToken => "expected separator",
            ErrorKind::ExpectedDelimiter => "expected delimited group",
            ErrorKind::MalformedLiteral => "expected literal",
            ErrorKind::HostExpression => "expected expression",
        }
    }
}

/// A failure as a plain value: the kind, and the way to the offending token.
///
/// `path[0]` is the index of the offending token in the stream that holds it
/// (the length of that stream where the input ended too early); each further
/// entry is the index of the group around it in the stream one level out.
pub struct Failure {
    pub kind: ErrorKind,
    pub path: Seq<int>,
}

/// A failed parse: the first error met, with the location of its token.
#[derive(Debug)]
pub struct ParseError {
    pub kind: ErrorKind,
    pub path: Vec<usize>,
}

impl Failure {
    /// A failure at index `at` of the stream being read.
    pub open spec fn at(kind: ErrorKind, at: int) -> Failure {
        Failure { kind, path: seq![at] }
    }

    /// The same failure seen from one level out, where the stream it arose in
    /// is the group at index `at`.
    pub open spec fn within(self, at: int) -> Failure {
        Failure { kind: self.kind, path: self.path.push(at) }
    }
}

impl View for ParseError {
    type V = Failure;

    open spec fn view(&self) -> Failure {
        Failure { kind: self.kind, path: Seq::new(self.path@.len(), |i: int| self.path@[i] as int) }
    }
}

impl ParseError {
    /// An error at index `at` of the stream being read.
    pub fn at(kind: ErrorKind, at: usize) -> (e: ParseError)
        ensures
            e@ == Failure::at(kind, at as int),
    {
        let mut path: Vec<usize> = Vec::new();
        path.push(at);
        let e = ParseError { kind, path };
        assert(e@.path =~= seq![at as int]);
        e
    }

    /// The same error seen from one level out, where the stream it arose in is
    /// the group at index `at`.
    pub fn within(self, at: usize) -> (e: ParseError)
        ensures
            e@ == self@.within(at as int),
    {
        let mut path = self.path;
        path.push(at);
        let e = ParseError { kind: self.kind, path };
        assert(e@.path =~= self@.path.push(at as int));
        e
    }
}

} // verus!

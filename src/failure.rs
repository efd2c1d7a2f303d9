use vstd::prelude::*;
use vstd::string::StringExecFns;
use crate::span::Span;

verus! {

/// The one discriminant that callers branch on when a parse call fails.
#[derive(Clone, Copy, Debug, PartialEq, Eq, Structural)]
pub enum FailureKind {
    /// The text does not conform to the grammar and could not be recovered.
    SyntaxError,
    /// A valid tree or comment list could not be encoded.
    SerializationError,
    /// A pipeline invariant was broken.
    InternalError,
}

/// The single failure value a parse call hands back.
#[derive(Debug)]
pub struct ParseFailure {
    pub kind: FailureKind,
    pub message: String,
    /// Where in the source the failure was found, when that is known.
    pub span: Option<Span>,
}

impl ParseFailure {
    pub fn syntax(span: Option<Span>) -> (r: ParseFailure)
        ensures
            r.kind == FailureKind::SyntaxError,
            r.message@ == "Unable to parse the code"@,
            r.span == span,
    {
        ParseFailure {
            kind: FailureKind::SyntaxError,
            message: String::from_str("Unable to parse the code"),
            span,
        }
    }

    pub fn serialization() -> (r: ParseFailure)
        ensures
            r.kind == FailureKind::SerializationError,
            r.message@ == "Error serializing the AST tree"@,
            r.span.is_none(),
    {
        ParseFailure {
            kind: FailureKind::SerializationError,
            message: String::from_str("Error serializing the AST tree"),
            span: None,
        }
    }

    pub fn internal() -> (r: ParseFailure)
        ensures
            r.kind == FailureKind::InternalError,
            r.message@ == "Internal error while resolving the tree"@,
            r.span.is_none(),
    {
        ParseFailure {
            kind: FailureKind::InternalError,
            message: String::from_str("Internal error while resolving the tree"),
            span: None,
        }
    }
}

} // verus!

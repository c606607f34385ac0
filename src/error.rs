//! Errors reported by the library.
use vstd::prelude::*;

verus! {

/// What went wrong, with a message or the offending name.
#[derive(Debug, Clone)]
pub enum LakeError {
    /// Malformed statement or filter text.
    ParseError(String),
    /// A tagged principal or resource used where matching is undefined.
    UnsupportedFeature(String),
    UnknownPrincipalKind(String),
    UnknownResourceKind(String),
    UnknownAction(String),
    /// A mutation named a role that does not exist.
    RoleNotFound(String),
    /// A filter looked up a session-context key that is not set.
    MissingSessionContextKey(String),
    /// A filter that could not be evaluated.
    EvaluationError(String),
    /// An operation applied to a statement of the wrong kind.
    Usage(String),
}

/// The label and the detail of an error.
pub open spec fn message_parts(e: LakeError) -> (Seq<char>, Seq<char>) {
    match e {
        LakeError::ParseError(m) => ("parse error: "@, m@),
        LakeError::UnsupportedFeature(m) => ("unsupported feature: "@, m@),
        LakeError::UnknownPrincipalKind(m) => ("unknown principal kind: "@, m@),
        LakeError::UnknownResourceKind(m) => ("unknown resource kind: "@, m@),
        LakeError::UnknownAction(m) => ("unknown action: "@, m@),
        LakeError::RoleNotFound(m) => ("role not found: "@, m@),
        LakeError::MissingSessionContextKey(m) => ("session context key not found: "@, m@),
        LakeError::EvaluationError(m) => ("cannot evaluate: "@, m@),
        LakeError::Usage(m) => ("usage error: "@, m@),
    }
}

impl LakeError {
    /// A human-readable account of the error: its label, then its detail.
    pub fn message(&self) -> (r: String)
        ensures
            r@ == message_parts(*self).0 + message_parts(*self).1,
    {
        let (prefix, detail) = match self {
            LakeError::ParseError(m) => ("parse error: ", m),
            LakeError::UnsupportedFeature(m) => ("unsupported feature: ", m),
            LakeError::UnknownPrincipalKind(m) => ("unknown principal kind: ", m),
            LakeError::UnknownResourceKind(m) => ("unknown resource kind: ", m),
            LakeError::UnknownAction(m) => ("unknown action: ", m),
            LakeError::RoleNotFound(m) => ("role not found: ", m),
            LakeError::MissingSessionContextKey(m) => ("session context key not found: ", m),
            LakeError::EvaluationError(m) => ("cannot evaluate: ", m),
            LakeError::Usage(m) => ("usage error: ", m),
        };
        String::from_str(prefix).concat(detail.as_str())
    }
}

} // verus!

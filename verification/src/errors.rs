//! Error taxonomy of the constraint engine. Every malformed input is
//! rejected when a constraint is built; matching never fails afterwards.

use vstd::prelude::*;

verus! {

/// Why a constraint or version text was rejected.
#[derive(Clone, Copy, PartialEq, Eq, Structural, Debug)]
pub enum SpecError {
    /// Grouping or combinator syntax is malformed: unbalanced parentheses
    /// or an empty operand next to `|` or `,`.
    Syntax,
    /// An operator token is unrecognized, a regex leaf lacks one of its
    /// `^`/`$` anchors, or `~=` is combined with a trailing wildcard.
    Operator,
    /// Version text cannot be tokenized into release and local segments.
    VersionParse,
    /// A regular-expression leaf failed to compile.
    RegexCompile,
}

impl SpecError {
    /// A short description of the error.
    pub fn describe(&self) -> (r: &'static str)
        ensures
            r@ == self.describe_spec(),
    {
        match self {
            SpecError::Syntax => "malformed constraint syntax",
            SpecError::Operator => "invalid operator usage",
            SpecError::VersionParse => "invalid version text",
            SpecError::RegexCompile => "regular expression failed to compile",
        }
    }

    pub open spec fn describe_spec(&self) -> Seq<char> {
        match self {
            SpecError::Syntax => "malformed constraint syntax"@,
            SpecError::Operator => "invalid operator usage"@,
            SpecError::VersionParse => "invalid version text"@,
            SpecError::RegexCompile => "regular expression failed to compile"@,
        }
    }
}

} // verus!

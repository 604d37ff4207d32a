//! Categories of findings and their stable integer codes.

use vstd::prelude::*;

verus! {

/// Category of a finding.
///
/// The set is closed: a plugin cannot add to it. Each variant has a small
/// integer code that is stable across the plugin boundary.
#[derive(Clone, Copy, Debug, PartialEq, Eq, Structural)]
pub enum AnnotationKind {
    Spelling,
    Grammar,
    Style,
    Typography,
    Suggestion,
}

/// Smallest code that stands for a kind.
pub const MIN_KIND_CODE: u32 = 1;

/// Largest code that stands for a kind.
pub const MAX_KIND_CODE: u32 = 5;

/// The code of a kind, as a mathematical integer.
pub open spec fn kind_code(kind: AnnotationKind) -> int {
    match kind {
        AnnotationKind::Spelling => 1,
        AnnotationKind::Grammar => 2,
        AnnotationKind::Style => 3,
        AnnotationKind::Typography => 4,
        AnnotationKind::Suggestion => 5,
    }
}

/// The kind that a code stands for, if it stands for one.
pub open spec fn kind_of_code(code: int) -> Option<AnnotationKind> {
    if code == 1 {
        Some(AnnotationKind::Spelling)
    } else if code == 2 {
        Some(AnnotationKind::Grammar)
    } else if code == 3 {
        Some(AnnotationKind::Style)
    } else if code == 4 {
        Some(AnnotationKind::Typography)
    } else if code == 5 {
        Some(AnnotationKind::Suggestion)
    } else {
        None
    }
}

impl AnnotationKind {
    /// The stable integer code of this kind.
    pub fn code(self) -> (code: u32)
        ensures
            code as int == kind_code(self),
            MIN_KIND_CODE <= code <= MAX_KIND_CODE,
    {
        match self {
            AnnotationKind::Spelling => 1,
            AnnotationKind::Grammar => 2,
            AnnotationKind::Style => 3,
            AnnotationKind::Typography => 4,
            AnnotationKind::Suggestion => 5,
        }
    }

    /// Reads a code received across the boundary.
    ///
    /// A code outside the fixed set is a violation of the contract by the
    /// plugin that sent it, and gives `None`.
    pub fn from_code(code: u32) -> (kind: Option<AnnotationKind>)
        ensures
            kind == kind_of_code(code as int),
            kind is Some <==> MIN_KIND_CODE <= code <= MAX_KIND_CODE,
    {
        if code == 1 {
            Some(AnnotationKind::Spelling)
        } else if code == 2 {
            Some(AnnotationKind::Grammar)
        } else if code == 3 {
            Some(AnnotationKind::Style)
        } else if code == 4 {
            Some(AnnotationKind::Typography)
        } else if code == 5 {
            Some(AnnotationKind::Suggestion)
        } else {
            None
        }
    }
}

/// Every kind is recovered from its own code, and every code that stands for
/// a kind is the code of that kind.
pub proof fn lemma_kind_code_round_trip(kind: AnnotationKind, code: int)
    ensures
        kind_of_code(kind_code(kind)) == Some(kind),
        kind_of_code(code) is Some ==> kind_code(kind_of_code(code)->0) == code,
        kind_of_code(code) is Some <==> 1 <= code <= 5,
{
}

} // verus!

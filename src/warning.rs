use vstd::prelude::*;

use crate::span::Span;

verus! {

/// An advisory about a valid but suspicious rule set.
#[derive(Debug, Clone, Copy, PartialEq, Eq)]
pub struct Warning<'src> {
    pub kind: WarningKind<'src>,
    pub span: Span,
}

#[derive(Debug, Clone, Copy, PartialEq, Eq)]
pub enum WarningKind<'src> {
    /// Two rules whose patterns have the same structure.
    IdenticalRulePatterns { name1: &'src str, span1: Span, name2: &'src str, span2: Span },
    /// Parentheses around a pattern that needs none.
    UnnecessaryParanthesis,
    /// A helper rule that no emitted rule reaches.
    UnusedHelperRule,
    /// A bound `{m,m}` that `{m}` writes shorter.
    UnnecessaryRangeBoundary { value: usize },
}

} // verus!

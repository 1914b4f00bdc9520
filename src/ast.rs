use vstd::prelude::*;

use crate::span::Span;

verus! {

/// A named rule and its parsed pattern.
#[derive(Debug)]
pub struct Rule<'src> {
    pub name: &'src str,
    pub name_span: Span,
    pub kind: RuleKind,
    pub pattern: ASTNode<'src>,
}

#[derive(Debug, Clone, Copy, PartialEq, Eq, Structural)]
pub enum RuleKind {
    Token,
    Helper,
    Skip,
}

#[derive(Debug, PartialEq, Eq)]
pub enum ASTNode<'src> {
    Literal { char: char },
    Reference { name: &'src str, span: Span },
    Alternation { left: Box<ASTNode<'src>>, right: Box<ASTNode<'src>> },
    Concat { left: Box<ASTNode<'src>>, right: Box<ASTNode<'src>> },
    Repeat0 { inner: Box<ASTNode<'src>> },
    Repeat1 { inner: Box<ASTNode<'src>> },
    Optional { inner: Box<ASTNode<'src>> },
    Group { inner: Box<ASTNode<'src>>, span: Span },
    Range { inner: Box<ASTNode<'src>>, min: usize, max: Option<usize> },
    CharClass { negated: bool, parts: Vec<CharClassPart> },
    AnyChar,
    Error,
}

#[derive(Debug, Clone, Copy, PartialEq, Eq, Structural)]
pub enum CharClassPart {
    Literal { char: char },
    Range { min: char, max: char },
}

pub open spec fn part_wf(p: CharClassPart) -> bool {
    match p {
        CharClassPart::Literal { .. } => true,
        CharClassPart::Range { min, max } => min <= max,
    }
}

/// The invariants of a pattern: bounds in order, class ranges in order.
pub open spec fn node_wf(n: ASTNode) -> bool
    decreases n,
{
    match n {
        ASTNode::Alternation { left, right } => node_wf(*left) && node_wf(*right),
        ASTNode::Concat { left, right } => node_wf(*left) && node_wf(*right),
        ASTNode::Repeat0 { inner } => node_wf(*inner),
        ASTNode::Repeat1 { inner } => node_wf(*inner),
        ASTNode::Optional { inner } => node_wf(*inner),
        ASTNode::Group { inner, .. } => node_wf(*inner),
        ASTNode::Range { inner, min, max } => node_wf(*inner) && (max.is_some() ==> min
            <= max.unwrap()),
        ASTNode::CharClass { parts, .. } => forall|i: int|
            0 <= i < parts@.len() ==> part_wf(#[trigger] parts@[i]),
        _ => true,
    }
}

/// Structural equality of two patterns, where spans do not count.
pub open spec fn same_shape(a: ASTNode, b: ASTNode) -> bool
    decreases a,
{
    match (a, b) {
        (ASTNode::Literal { char: x }, ASTNode::Literal { char: y }) => x == y,
        (ASTNode::Reference { name: x, .. }, ASTNode::Reference { name: y, .. }) => x@ == y@,
        (
            ASTNode::Alternation { left: l1, right: r1 },
            ASTNode::Alternation { left: l2, right: r2 },
        ) => same_shape(*l1, *l2) && same_shape(*r1, *r2),
        (ASTNode::Concat { left: l1, right: r1 }, ASTNode::Concat { left: l2, right: r2 }) =>
            same_shape(*l1, *l2) && same_shape(*r1, *r2),
        (ASTNode::Repeat0 { inner: x }, ASTNode::Repeat0 { inner: y }) => same_shape(*x, *y),
        (ASTNode::Repeat1 { inner: x }, ASTNode::Repeat1 { inner: y }) => same_shape(*x, *y),
        (ASTNode::Optional { inner: x }, ASTNode::Optional { inner: y }) => same_shape(*x, *y),
        (ASTNode::Group { inner: x, .. }, ASTNode::Group { inner: y, .. }) => same_shape(*x, *y),
        (
            ASTNode::Range { inner: x, min: m1, max: n1 },
            ASTNode::Range { inner: y, min: m2, max: n2 },
        ) => m1 == m2 && n1 == n2 && same_shape(*x, *y),
        (
            ASTNode::CharClass { negated: g1, parts: p1 },
            ASTNode::CharClass { negated: g2, parts: p2 },
        ) => g1 == g2 && p1@ == p2@,
        (ASTNode::AnyChar, ASTNode::AnyChar) => true,
        (ASTNode::Error, ASTNode::Error) => true,
        _ => false,
    }
}

fn same_parts(a: &Vec<CharClassPart>, b: &Vec<CharClassPart>) -> (r: bool)
    ensures
        r == (a@ == b@),
{
    if a.len() != b.len() {
        return false;
    }
    let mut i: usize = 0;
    while i < a.len()
        invariant
            a@.len() == b@.len(),
            i <= a@.len(),
            forall|k: int| 0 <= k < i ==> a@[k] == b@[k],
        decreases a.len() - i,
    {
        if a[i] != b[i] {
            return false;
        }
        i = i + 1;
    }
    assert(a@ =~= b@);
    true
}

pub(crate) fn same_name(a: &str, b: &str) -> (r: bool)
    ensures
        r == (a@ == b@),
{
    let n = a.unicode_len();
    if n != b.unicode_len() {
        return false;
    }
    let mut i: usize = 0;
    while i < n
        invariant
            n == a@.len(),
            a@.len() == b@.len(),
            i <= n,
            forall|k: int| 0 <= k < i ==> a@[k] == b@[k],
        decreases n - i,
    {
        if a.get_char(i) != b.get_char(i) {
            return false;
        }
        i = i + 1;
    }
    assert(a@ =~= b@);
    true
}

/// Whether two patterns are equal in structure, spans aside.
pub fn same_pattern(a: &ASTNode, b: &ASTNode) -> (r: bool)
    ensures
        r == same_shape(*a, *b),
    decreases a,
{
    match (a, b) {
        (ASTNode::Literal { char: x }, ASTNode::Literal { char: y }) => *x == *y,
        (ASTNode::Reference { name: x, .. }, ASTNode::Reference { name: y, .. }) => same_name(
            x,
            y,
        ),
        (
            ASTNode::Alternation { left: l1, right: r1 },
            ASTNode::Alternation { left: l2, right: r2 },
        ) => same_pattern(l1, l2) && same_pattern(r1, r2),
        (ASTNode::Concat { left: l1, right: r1 }, ASTNode::Concat { left: l2, right: r2 }) =>
            same_pattern(l1, l2) && same_pattern(r1, r2),
        (ASTNode::Repeat0 { inner: x }, ASTNode::Repeat0 { inner: y }) => same_pattern(x, y),
        (ASTNode::Repeat1 { inner: x }, ASTNode::Repeat1 { inner: y }) => same_pattern(x, y),
        (ASTNode::Optional { inner: x }, ASTNode::Optional { inner: y }) => same_pattern(x, y),
        (ASTNode::Group { inner: x, .. }, ASTNode::Group { inner: y, .. }) => same_pattern(x, y),
        (
            ASTNode::Range { inner: x, min: m1, max: n1 },
            ASTNode::Range { inner: y, min: m2, max: n2 },
        ) => *m1 == *m2 && *n1 == *n2 && same_pattern(x, y),
        (
            ASTNode::CharClass { negated: g1, parts: p1 },
            ASTNode::CharClass { negated: g2, parts: p2 },
        ) => *g1 == *g2 && same_parts(p1, p2),
        (ASTNode::AnyChar, ASTNode::AnyChar) => true,
        (ASTNode::Error, ASTNode::Error) => true,
        _ => false,
    }
}

} // verus!

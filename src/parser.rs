use vstd::prelude::*;

use crate::ast::{node_wf, part_wf, ASTNode, CharClassPart, Rule, RuleKind};
use crate::error::{Error, ErrorKind};
use crate::span::Span;
use crate::token::{Token, TokenKind};
use crate::warning::{Warning, WarningKind};

verus! {

/// Whether a token can begin an atom of a pattern.
pub open spec fn starts_atom(k: TokenKind) -> bool {
    match k {
        TokenKind::Literal { .. } => true,
        TokenKind::Period => true,
        TokenKind::Identifier { .. } => true,
        TokenKind::ShorthandClass { .. } => true,
        TokenKind::OpenParen => true,
        TokenKind::OpenBrack => true,
        TokenKind::OpenBrace => true,
        _ => false,
    }
}

fn is_atom_start(k: &TokenKind) -> (r: bool)
    ensures
        r == starts_atom(*k),
{
    match k {
        TokenKind::Literal { .. } => true,
        TokenKind::Period => true,
        TokenKind::Identifier { .. } => true,
        TokenKind::ShorthandClass { .. } => true,
        TokenKind::OpenParen => true,
        TokenKind::OpenBrack => true,
        TokenKind::OpenBrace => true,
        _ => false,
    }
}

/// The character that a symbol token stands for inside a character class.
pub open spec fn class_char(k: TokenKind) -> Option<char> {
    match k {
        TokenKind::Literal { char } => Some(char),
        TokenKind::Pipe => Some('|'),
        TokenKind::Star => Some('*'),
        TokenKind::Plus => Some('+'),
        TokenKind::QMark => Some('?'),
        TokenKind::OpenBrace => Some('{'),
        TokenKind::ClosedBrace => Some('}'),
        TokenKind::OpenBrack => Some('['),
        TokenKind::OpenParen => Some('('),
        TokenKind::ClosedParen => Some(')'),
        TokenKind::Hyphen => Some('-'),
        TokenKind::Comma => Some(','),
        TokenKind::Period => Some('.'),
        TokenKind::Caret => Some('^'),
        TokenKind::Dollar => Some('$'),
        TokenKind::Equals => Some('='),
        _ => None,
    }
}

fn class_char_of(k: &TokenKind) -> (r: Option<char>)
    ensures
        r == class_char(*k),
{
    match k {
        TokenKind::Literal { char } => Some(*char),
        TokenKind::Pipe => Some('|'),
        TokenKind::Star => Some('*'),
        TokenKind::Plus => Some('+'),
        TokenKind::QMark => Some('?'),
        TokenKind::OpenBrace => Some('{'),
        TokenKind::ClosedBrace => Some('}'),
        TokenKind::OpenBrack => Some('['),
        TokenKind::OpenParen => Some('('),
        TokenKind::ClosedParen => Some(')'),
        TokenKind::Hyphen => Some('-'),
        TokenKind::Comma => Some(','),
        TokenKind::Period => Some('.'),
        TokenKind::Caret => Some('^'),
        TokenKind::Dollar => Some('$'),
        TokenKind::Equals => Some('='),
        _ => None,
    }
}

/// The class parts that a shorthand class letter stands for, in its positive form:
/// digits; word characters; white space.
pub open spec fn shorthand_spec(c: char) -> Seq<CharClassPart> {
    if c == 'd' || c == 'D' {
        seq![CharClassPart::Range { min: '0', max: '9' }]
    } else if c == 'w' || c == 'W' {
        seq![
            CharClassPart::Range { min: 'a', max: 'z' },
            CharClassPart::Range { min: 'A', max: 'Z' },
            CharClassPart::Range { min: '0', max: '9' },
            CharClassPart::Literal { char: '_' },
        ]
    } else {
        seq![
            CharClassPart::Literal { char: ' ' },
            CharClassPart::Literal { char: '\t' },
            CharClassPart::Literal { char: '\n' },
            CharClassPart::Literal { char: '\r' },
            CharClassPart::Literal { char: '\x0B' },
            CharClassPart::Literal { char: '\x0C' },
        ]
    }
}

/// The class parts that a shorthand class stands for inside brackets: a
/// lowercase letter its set, an uppercase letter the ranges of its complement.
pub open spec fn class_shorthand_spec(c: char) -> Seq<CharClassPart> {
    if c == 'D' {
        seq![
            CharClassPart::Range { min: '\0', max: '/' },
            CharClassPart::Range { min: ':', max: '\u{10FFFF}' },
        ]
    } else if c == 'W' {
        seq![
            CharClassPart::Range { min: '\0', max: '/' },
            CharClassPart::Range { min: ':', max: '@' },
            CharClassPart::Range { min: '[', max: '^' },
            CharClassPart::Range { min: '`', max: '`' },
            CharClassPart::Range { min: '{', max: '\u{10FFFF}' },
        ]
    } else if c == 'S' {
        seq![
            CharClassPart::Range { min: '\0', max: '\x08' },
            CharClassPart::Range { min: '\x0E', max: '\x1F' },
            CharClassPart::Range { min: '!', max: '\u{10FFFF}' },
        ]
    } else {
        shorthand_spec(c)
    }
}

fn class_shorthand_parts(c: char) -> (r: Vec<CharClassPart>)
    ensures
        forall|i: int| 0 <= i < r@.len() ==> part_wf(#[trigger] r@[i]),
        r@ == class_shorthand_spec(c),
{
    if c == 'D' {
        let v = vec![
            CharClassPart::Range { min: '\0', max: '/' },
            CharClassPart::Range { min: ':', max: '\u{10FFFF}' },
        ];
        assert(v@ =~= class_shorthand_spec(c));
        v
    } else if c == 'W' {
        let v = vec![
            CharClassPart::Range { min: '\0', max: '/' },
            CharClassPart::Range { min: ':', max: '@' },
            CharClassPart::Range { min: '[', max: '^' },
            CharClassPart::Range { min: '`', max: '`' },
            CharClassPart::Range { min: '{', max: '\u{10FFFF}' },
        ];
        assert(v@ =~= class_shorthand_spec(c));
        v
    } else if c == 'S' {
        let v = vec![
            CharClassPart::Range { min: '\0', max: '\x08' },
            CharClassPart::Range { min: '\x0E', max: '\x1F' },
            CharClassPart::Range { min: '!', max: '\u{10FFFF}' },
        ];
        assert(v@ =~= class_shorthand_spec(c));
        v
    } else {
        shorthand_parts(c)
    }
}

pub fn shorthand_parts(c: char) -> (r: Vec<CharClassPart>)
    ensures
        forall|i: int| 0 <= i < r@.len() ==> part_wf(#[trigger] r@[i]),
        r@ == shorthand_spec(c),
{
    let mut parts: Vec<CharClassPart> = Vec::new();
    if c == 'd' || c == 'D' {
        parts.push(CharClassPart::Range { min: '0', max: '9' });
    } else if c == 'w' || c == 'W' {
        parts.push(CharClassPart::Range { min: 'a', max: 'z' });
        parts.push(CharClassPart::Range { min: 'A', max: 'Z' });
        parts.push(CharClassPart::Range { min: '0', max: '9' });
        parts.push(CharClassPart::Literal { char: '_' });
    } else {
        parts.push(CharClassPart::Literal { char: ' ' });
        parts.push(CharClassPart::Literal { char: '\t' });
        parts.push(CharClassPart::Literal { char: '\n' });
        parts.push(CharClassPart::Literal { char: '\r' });
        parts.push(CharClassPart::Literal { char: '\x0B' });
        parts.push(CharClassPart::Literal { char: '\x0C' });
    }
    assert(parts@ =~= shorthand_spec(c));
    parts
}

/// Whether token `i` exists and has kind `k`.
pub open spec fn kind_is(t: Seq<Token>, i: int, k: TokenKind) -> bool {
    0 <= i < t.len() && t[i].kind == k
}

/// Whether tokens `[a, j)` are a bound `{m}`, `{m,}` or `{m,n}` giving `min` and `max`.
pub open spec fn bound_rel(t: Seq<Token>, a: int, j: int, min: usize, max: Option<usize>) -> bool {
    &&& kind_is(t, a, TokenKind::OpenBrace)
    &&& kind_is(t, a + 1, TokenKind::Number { num: min })
    &&& kind_is(t, j - 1, TokenKind::ClosedBrace)
    &&& {
        ||| j == a + 3 && max == Some(min)
        ||| j == a + 4 && kind_is(t, a + 2, TokenKind::Comma) && max.is_none()
        ||| j == a + 5 && kind_is(t, a + 2, TokenKind::Comma) && max.is_some() && kind_is(
            t,
            a + 3,
            TokenKind::Number { num: max.unwrap() },
        ) && min <= max.unwrap()
    }
}

/// Whether tokens `[i, j)` are class items that read as `parts`: a shorthand
/// class adds its parts, a character or symbol adds itself, `a` `-` `b` adds a
/// range, and an error token that the tokenizer has reported adds nothing.
pub open spec fn class_items_rel(t: Seq<Token>, i: int, j: int, parts: Seq<CharClassPart>) -> bool
    decreases j - i,
{
    if j <= i {
        j == i && parts.len() == 0
    } else {
        let k = t[j - 1].kind;
        ||| k == TokenKind::Error && class_items_rel(t, i, j - 1, parts)
        ||| (k matches TokenKind::ShorthandClass { char } ==> parts.len() >= class_shorthand_spec(
            char,
        ).len() && parts.subrange(
            parts.len() - class_shorthand_spec(char).len(),
            parts.len() as int,
        ) == class_shorthand_spec(char) && class_items_rel(
            t,
            i,
            j - 1,
            parts.subrange(0, parts.len() - class_shorthand_spec(char).len()),
        )) && k is ShorthandClass
        ||| class_char(k).is_some() && parts.len() > 0 && parts.last() == (CharClassPart::Literal {
            char: class_char(k).unwrap(),
        }) && class_items_rel(t, i, j - 1, parts.drop_last())
        ||| i <= j - 3 && class_char(k).is_some() && t[j - 2].kind == TokenKind::Hyphen
            && class_char(t[j - 3].kind).is_some() && parts.len() > 0 && parts.last() == (
        CharClassPart::Range {
            min: class_char(t[j - 3].kind).unwrap(),
            max: class_char(k).unwrap(),
        }) && class_items_rel(t, i, j - 3, parts.drop_last())
    }
}

/// Whether tokens `[i, j)`, inside brackets, read as the class `n`.
pub open spec fn class_body_rel(t: Seq<Token>, i: int, j: int, n: ASTNode) -> bool {
    match n {
        ASTNode::CharClass { negated, parts } => if negated {
            kind_is(t, i, TokenKind::Caret) && class_items_rel(t, i + 1, j, parts@)
        } else {
            class_items_rel(t, i, j, parts@)
        },
        _ => false,
    }
}

/// Whether tokens `[i, j)` are an atom that reads as `n`.
pub open spec fn atom_rel(t: Seq<Token>, i: int, j: int, n: ASTNode) -> bool
    decreases n, 0nat,
{
    match n {
        ASTNode::Literal { char } => j == i + 1 && kind_is(t, i, TokenKind::Literal { char }),
        ASTNode::AnyChar => j == i + 1 && kind_is(t, i, TokenKind::Period),
        ASTNode::Reference { name, span } => {
            ||| j == i + 1 && kind_is(t, i, TokenKind::Identifier { name }) && span == t[i].span
            ||| j == i + 3 && kind_is(t, i, TokenKind::OpenBrace) && kind_is(
                t,
                i + 1,
                TokenKind::Identifier { name },
            ) && kind_is(t, i + 2, TokenKind::ClosedBrace) && span == (Span {
                start: t[i].span.start,
                end: t[i + 2].span.end,
            })
        },
        ASTNode::Group { inner, span } => i + 2 <= j && kind_is(t, i, TokenKind::OpenParen)
            && kind_is(t, j - 1, TokenKind::ClosedParen) && span == (Span {
            start: t[i].span.start,
            end: t[j - 1].span.end,
        }) && alt_rel(t, i + 1, j - 1, *inner),
        ASTNode::CharClass { negated, parts } => {
            ||| j == i + 1 && 0 <= i < t.len() && (t[i].kind matches TokenKind::ShorthandClass {
                char,
            } ==> negated == (char == 'D' || char == 'W' || char == 'S') && parts@
                == shorthand_spec(char)) && t[i].kind is ShorthandClass
            ||| i + 2 <= j && kind_is(t, i, TokenKind::OpenBrack) && kind_is(
                t,
                j - 1,
                TokenKind::ClosedBrack,
            ) && j <= t.len() && class_body_rel(t, i + 1, j - 1, n)
        },
        _ => false,
    }
}

/// Whether tokens `[i, j)` are an atom with postfix operators that reads as `n`.
pub open spec fn repeat_rel(t: Seq<Token>, i: int, j: int, n: ASTNode) -> bool
    decreases n, 1nat,
{
    ||| atom_rel(t, i, j, n)
    ||| match n {
        ASTNode::Repeat0 { inner } => kind_is(t, j - 1, TokenKind::Star) && repeat_rel(
            t,
            i,
            j - 1,
            *inner,
        ),
        ASTNode::Repeat1 { inner } => kind_is(t, j - 1, TokenKind::Plus) && repeat_rel(
            t,
            i,
            j - 1,
            *inner,
        ),
        ASTNode::Optional { inner } => kind_is(t, j - 1, TokenKind::QMark) && repeat_rel(
            t,
            i,
            j - 1,
            *inner,
        ),
        ASTNode::Range { inner, min, max } => exists|a: int|
            #[trigger] bound_rel(t, a, j, min, max) && repeat_rel(t, i, a, *inner),
        _ => false,
    }
}

pub open spec fn strictly_between(i: int, k: int, j: int) -> bool {
    i < k < j
}

/// Whether tokens `[i, j)` are a nonempty concatenation that reads as `n`, grouped to the left.
pub open spec fn concat_rel(t: Seq<Token>, i: int, j: int, n: ASTNode) -> bool
    decreases n, 2nat,
{
    ||| repeat_rel(t, i, j, n)
    ||| match n {
        ASTNode::Concat { left, right } => exists|k: int|
            #[trigger] strictly_between(i, k, j) && concat_rel(t, i, k, *left) && repeat_rel(
                t,
                k,
                j,
                *right,
            ),
        _ => false,
    }
}

/// Whether tokens `[i, j)` are an alternation that reads as `n`, grouped to the left.
pub open spec fn alt_rel(t: Seq<Token>, i: int, j: int, n: ASTNode) -> bool
    decreases n, 3nat,
{
    ||| concat_rel(t, i, j, n)
    ||| match n {
        ASTNode::Alternation { left, right } => exists|k: int|
            #[trigger] kind_is(t, k, TokenKind::Pipe) && alt_rel(t, i, k, *left) && concat_rel(
                t,
                k + 1,
                j,
                *right,
            ),
        _ => false,
    }
}

proof fn lemma_prefix_squeeze(a: Seq<Error>, b: Seq<Error>, c: Seq<Error>)
    requires
        a.is_prefix_of(b),
        b.is_prefix_of(c),
        a == c,
    ensures
        a == b,
{
    assert(b =~= c.subrange(0, b.len() as int));
    assert(a =~= b);
}

/// Whether a rule line starts at token `p`, after nothing but line ends from token `i` on:
/// token `p` is a name and token `p + 1` is `=`.
pub open spec fn rule_start(t: Seq<Token>, i: int, p: int) -> bool {
    &&& i <= p
    &&& forall|k: int| i <= k < p ==> #[trigger] kind_is(t, k, TokenKind::Newline)
    &&& 0 <= p && p + 1 < t.len()
    &&& t[p].kind is Identifier
    &&& t[p + 1].kind == TokenKind::Equals
}

proof fn lemma_rule_start_step(t: Seq<Token>, i: int, p: int)
    requires
        rule_start(t, i, p),
        0 <= i < t.len(),
    ensures
        t[i].kind == TokenKind::Newline ==> p > i && rule_start(t, i + 1, p),
        t[i].kind != TokenKind::Newline ==> p == i,
{
    if p > i {
        assert(kind_is(t, i, TokenKind::Newline));
    }
}

/// Whether token `p` is the `=` of a rule whose pattern, tokens `(p, q)`, reads as `n`.
pub open spec fn rule_shape(t: Seq<Token>, p: int, q: int, n: ASTNode) -> bool {
    kind_is(t, p, TokenKind::Equals) && alt_rel(t, p + 1, q, n)
}

/// Builds one rule's pattern at a time from a token sequence, and collects
/// syntax errors and the warnings that only the source form shows.
pub struct Parser<'src> {
    tokens: &'src [Token<'src>],
    index: usize,
    errors: Vec<Error>,
    warnings: Vec<Warning<'src>>,
}

impl<'src> Parser<'src> {
    pub closed spec fn token_seq(&self) -> Seq<Token<'src>> {
        self.tokens@
    }

    /// Index of the next token to be read.
    pub closed spec fn position(&self) -> int {
        self.index as int
    }

    pub closed spec fn errors_seen(&self) -> Seq<Error> {
        self.errors@
    }

    pub closed spec fn warnings_seen(&self) -> Seq<Warning<'src>> {
        self.warnings@
    }

    pub closed spec fn wf(&self) -> bool {
        self.index <= self.tokens@.len()
    }

    /// The kind of the next token, if any is left.
    pub closed spec fn next_kind(&self) -> Option<TokenKind<'src>> {
        if self.index < self.tokens@.len() {
            Some(self.tokens@[self.index as int].kind)
        } else {
            None
        }
    }

    /// The kind of the token `d` places after the next one, if there is one.
    pub open spec fn kind_ahead(&self, d: int) -> Option<TokenKind<'src>> {
        if 0 <= self.position() + d < self.token_seq().len() {
            Some(self.token_seq()[self.position() + d].kind)
        } else {
            None
        }
    }

    /// The parser keeps its tokens, may only move forward, and only adds diagnostics.
    pub open spec fn advanced_to(&self, other: &Self) -> bool {
        &&& other.wf()
        &&& other.token_seq() == self.token_seq()
        &&& other.position() >= self.position()
        &&& self.errors_seen().is_prefix_of(other.errors_seen())
        &&& self.warnings_seen().is_prefix_of(other.warnings_seen())
    }

    pub fn new(tokens: &'src [Token<'src>]) -> (r: Self)
        ensures
            r.wf(),
            r.token_seq() == tokens@,
            r.position() == 0,
            r.errors_seen().len() == 0,
            r.warnings_seen().len() == 0,
    {
        Parser { tokens, index: 0, errors: Vec::new(), warnings: Vec::new() }
    }

    /// Syntax errors found so far, in the order found.
    pub fn errors(&self) -> (r: &Vec<Error>)
        ensures
            r@ == self.errors_seen(),
    {
        &self.errors
    }

    /// Warnings found so far, in the order found.
    pub fn warnings(&self) -> (r: &Vec<Warning<'src>>)
        ensures
            r@ == self.warnings_seen(),
    {
        &self.warnings
    }

    fn peek(&self) -> (r: Option<Token<'src>>)
        requires
            self.wf(),
        ensures
            r.is_some() == (self.position() < self.token_seq().len()),
            r.is_some() ==> r.unwrap() == self.token_seq()[self.position()],
            r.is_some() ==> self.next_kind() == Some(r.unwrap().kind),
            r.is_none() ==> self.next_kind().is_none(),
    {
        if self.index < self.tokens.len() {
            Some(self.tokens[self.index])
        } else {
            None
        }
    }

    /// The kind of the token after the next one.
    fn peek_second(&self) -> (r: Option<TokenKind<'src>>)
        requires
            self.wf(),
        ensures
            r == self.kind_ahead(1),
    {
        if self.index < self.tokens.len() && self.index < self.tokens.len() - 1 {
            Some(self.tokens[self.index + 1].kind)
        } else {
            None
        }
    }

    fn consume(&mut self) -> (r: Option<Token<'src>>)
        requires
            old(self).wf(),
        ensures
            old(self).advanced_to(final(self)),
            final(self).errors_seen() == old(self).errors_seen(),
            final(self).warnings_seen() == old(self).warnings_seen(),
            r.is_some() == (old(self).position() < old(self).token_seq().len()),
            r.is_some() ==> r.unwrap() == old(self).token_seq()[old(self).position()]
                && final(self).position() == old(self).position() + 1,
            r.is_none() ==> final(self).position() == old(self).position(),
    {
        if self.index < self.tokens.len() {
            let current = self.tokens[self.index];
            self.index = self.index + 1;
            Some(current)
        } else {
            None
        }
    }

    /// The span that an error at the next token reports: that token's, or an
    /// empty span at the end of the last token.
    fn here(&self) -> (r: Span)
        requires
            self.wf(),
    {
        if self.index < self.tokens.len() {
            self.tokens[self.index].span
        } else if self.tokens.len() > 0 {
            let end = self.tokens[self.tokens.len() - 1].span.end;
            Span { start: end, end }
        } else {
            Span { start: 0, end: 0 }
        }
    }

    fn report(&mut self, kind: ErrorKind)
        requires
            old(self).wf(),
        ensures
            old(self).advanced_to(final(self)),
            final(self).position() == old(self).position(),
            final(self).warnings_seen() == old(self).warnings_seen(),
            final(self).errors_seen().len() == old(self).errors_seen().len() + 1,
            final(self).errors_seen().last().kind == kind,
    {
        let span = self.here();
        self.errors.push(Error { kind, span });
    }

    /// Reports a missing closing symbol: `UnexpectedEOF` where the rule or the
    /// input has ended, `UnexpectedToken` otherwise.
    fn report_missing(&mut self)
        requires
            old(self).wf(),
        ensures
            old(self).advanced_to(final(self)),
            final(self).position() == old(self).position(),
            final(self).warnings_seen() == old(self).warnings_seen(),
            final(self).errors_seen().len() == old(self).errors_seen().len() + 1,
    {
        match self.peek() {
            None => self.report(ErrorKind::UnexpectedEOF),
            Some(Token { kind: TokenKind::Newline, .. }) => self.report(ErrorKind::UnexpectedEOF),
            Some(_) => self.report(ErrorKind::UnexpectedToken),
        }
    }
}

impl<'src> Parser<'src> {
    /// pattern := concat ('|' concat)*, grouped to the left.
    fn parse_alternation(&mut self) -> (r: ASTNode<'src>)
        requires
            old(self).wf(),
        ensures
            old(self).advanced_to(final(self)),
            node_wf(r),
            old(self).next_kind().is_some() && starts_atom(old(self).next_kind().unwrap())
                ==> final(self).position() > old(self).position(),
            final(self).errors_seen() == old(self).errors_seen() ==> alt_rel(
                old(self).token_seq(),
                old(self).position(),
                final(self).position(),
                r,
            ),
        decreases old(self).token_seq().len() - old(self).position(), 3nat,
    {
        let mut left = self.parse_concat();
        loop
            invariant
                old(self).advanced_to(self),
                self.errors@ == old(self).errors@ ==> alt_rel(
                    old(self).tokens@,
                    old(self).index as int,
                    self.index as int,
                    left,
                ),
                node_wf(left),
                old(self).next_kind().is_some() && starts_atom(old(self).next_kind().unwrap())
                    ==> self.position() > old(self).position(),
            decreases self.tokens@.len() - self.index,
        {
            match self.peek() {
                Some(Token { kind: TokenKind::Pipe, .. }) => {
                    let ghost k = self.index as int;
                    let ghost e1 = self.errors@;
                    let ghost prev = left;
                    self.consume();
                    let right = self.parse_concat();
                    left = ASTNode::Alternation { left: Box::new(left), right: Box::new(right) };
                    proof {
                        if self.errors@ == old(self).errors@ {
                            lemma_prefix_squeeze(old(self).errors@, e1, self.errors@);
                            assert(alt_rel(old(self).tokens@, old(self).index as int, k, prev));
                            assert(kind_is(old(self).tokens@, k, TokenKind::Pipe));
                            assert(concat_rel(old(self).tokens@, k + 1, self.index as int, right));
                            assert(alt_rel(old(self).tokens@, old(self).index as int, self.index as int, left));
                        }
                    }
                },
                _ => {
                    break;
                },
            }
        }
        left
    }

    /// concat := repeat+, grouped to the left; nothing here is an `EmptyPattern` error.
    fn parse_concat(&mut self) -> (r: ASTNode<'src>)
        requires
            old(self).wf(),
        ensures
            old(self).advanced_to(final(self)),
            node_wf(r),
            old(self).next_kind().is_some() && starts_atom(old(self).next_kind().unwrap())
                ==> final(self).position() > old(self).position(),
            !(old(self).next_kind().is_some() && starts_atom(old(self).next_kind().unwrap()))
                ==> r == ASTNode::Error && final(self).position() == old(self).position()
                && final(self).errors_seen().len() == old(self).errors_seen().len() + 1
                && final(self).errors_seen().last().kind == ErrorKind::EmptyPattern,
            final(self).errors_seen() == old(self).errors_seen() ==> concat_rel(
                old(self).token_seq(),
                old(self).position(),
                final(self).position(),
                r,
            ),
        decreases old(self).token_seq().len() - old(self).position(), 2nat,
    {
        let mut result: Option<ASTNode<'src>> = None;
        loop
            invariant
                old(self).advanced_to(self),
                result.is_some() ==> node_wf(result.unwrap()),
                result.is_some() ==> self.position() > old(self).position(),
                result.is_none() ==> self.position() == old(self).position(),
                result.is_none() ==> self.errors@ == old(self).errors@,
                result.is_some() && self.errors@ == old(self).errors@ ==> concat_rel(
                    old(self).tokens@,
                    old(self).index as int,
                    self.index as int,
                    result.unwrap(),
                ),
                result.is_some() ==> old(self).next_kind().is_some() && starts_atom(
                    old(self).next_kind().unwrap(),
                ),
            ensures
                result.is_some() && self.errors@ == old(self).errors@ ==> concat_rel(
                    old(self).tokens@,
                    old(self).index as int,
                    self.index as int,
                    result.unwrap(),
                ),
                result.is_some() ==> old(self).next_kind().is_some() && starts_atom(
                    old(self).next_kind().unwrap(),
                ),
                old(self).advanced_to(self),
                result.is_some() ==> node_wf(result.unwrap()),
                result.is_some() ==> self.position() > old(self).position(),
                result.is_none() ==> self.position() == old(self).position(),
                result.is_none() ==> !(self.next_kind().is_some() && starts_atom(
                    self.next_kind().unwrap(),
                )),
            decreases self.tokens@.len() - self.index,
        {
            let starts = match self.peek() {
                Some(tok) => is_atom_start(&tok.kind),
                None => false,
            };
            if !starts {
                break;
            }
            let ghost k = self.index as int;
            let ghost e1 = self.errors@;
            let ghost before = result;
            let next = self.parse_repeat();
            result = match result {
                None => Some(next),
                Some(prev) => Some(ASTNode::Concat { left: Box::new(prev), right: Box::new(next) }),
            };
            proof {
                if self.errors@ == old(self).errors@ {
                    lemma_prefix_squeeze(old(self).errors@, e1, self.errors@);
                    assert(repeat_rel(old(self).tokens@, k, self.index as int, next));
                    if before.is_some() {
                        let prev = before.unwrap();
                        assert(concat_rel(old(self).tokens@, old(self).index as int, k, prev));
                        assert(strictly_between(old(self).index as int, k, self.index as int));
                        assert(concat_rel(old(self).tokens@, old(self).index as int, self.index as int, result.unwrap()));
                    }
                }
            }
        }
        match result {
            Some(node) => node,
            None => {
                self.report(ErrorKind::EmptyPattern);
                ASTNode::Error
            },
        }
    }

    /// repeat := atom postfix*, with postfix one of `*`, `+`, `?` and a bound.
    fn parse_repeat(&mut self) -> (r: ASTNode<'src>)
        requires
            old(self).wf(),
            old(self).next_kind().is_some(),
            starts_atom(old(self).next_kind().unwrap()),
        ensures
            old(self).advanced_to(final(self)),
            node_wf(r),
            final(self).position() > old(self).position(),
            final(self).errors_seen() == old(self).errors_seen() ==> repeat_rel(
                old(self).token_seq(),
                old(self).position(),
                final(self).position(),
                r,
            ),
        decreases old(self).token_seq().len() - old(self).position(), 1nat,
    {
        let mut node = self.parse_atom();
        loop
            invariant
                old(self).advanced_to(self),
                self.errors@ == old(self).errors@ ==> repeat_rel(
                    old(self).tokens@,
                    old(self).index as int,
                    self.index as int,
                    node,
                ),
                node_wf(node),
                self.position() > old(self).position(),
            decreases self.tokens@.len() - self.index,
        {
            match self.peek() {
                Some(Token { kind: TokenKind::Star, .. }) => {
                    self.consume();
                    node = ASTNode::Repeat0 { inner: Box::new(node) };
                },
                Some(Token { kind: TokenKind::Plus, .. }) => {
                    self.consume();
                    node = ASTNode::Repeat1 { inner: Box::new(node) };
                },
                Some(Token { kind: TokenKind::QMark, .. }) => {
                    self.consume();
                    node = ASTNode::Optional { inner: Box::new(node) };
                },
                Some(Token { kind: TokenKind::OpenBrace, .. }) => {
                    match self.peek_second() {
                        Some(TokenKind::Identifier { .. }) => {
                            break;
                        },
                        _ => {},
                    }
                    let ghost a = self.index as int;
                    let ghost e1 = self.errors@;
                    let ghost prev = node;
                    node = self.parse_bound(node);
                    proof {
                        if self.errors@ == old(self).errors@ {
                            lemma_prefix_squeeze(old(self).errors@, e1, self.errors@);
                            assert(repeat_rel(old(self).tokens@, old(self).index as int, a, prev));
                        }
                    }
                },
                _ => {
                    break;
                },
            }
        }
        node
    }
}

impl<'src> Parser<'src> {
    /// Skips the rest of a malformed bound: up to and with its `}`, or up to
    /// the end of the rule.
    fn skip_bound(&mut self)
        requires
            old(self).wf(),
        ensures
            old(self).advanced_to(final(self)),
            final(self).errors_seen() == old(self).errors_seen(),
            final(self).warnings_seen() == old(self).warnings_seen(),
    {
        loop
            invariant
                old(self).advanced_to(self),
                self.errors@ == old(self).errors@,
                self.warnings@ == old(self).warnings@,
            decreases self.tokens@.len() - self.index,
        {
            match self.peek() {
                None => {
                    break;
                },
                Some(Token { kind: TokenKind::Newline, .. }) => {
                    break;
                },
                Some(Token { kind: TokenKind::ClosedBrace, .. }) => {
                    self.consume();
                    break;
                },
                Some(_) => {
                    self.consume();
                },
            }
        }
    }

    /// bound := '{' Number (',' Number?)? '}' after `inner`. A bound whose
    /// minimum exceeds its maximum is an `InvalidRangeBounds` error and gives
    /// an `Error` node; `{m,m}` gives an `UnnecessaryRangeBoundary` warning.
    fn parse_bound(&mut self, inner: ASTNode<'src>) -> (r: ASTNode<'src>)
        requires
            old(self).wf(),
            old(self).next_kind() == Some(TokenKind::OpenBrace),
            node_wf(inner),
        ensures
            old(self).advanced_to(final(self)),
            final(self).position() > old(self).position(),
            node_wf(r),
            final(self).errors_seen() == old(self).errors_seen() ==> (r matches ASTNode::Range {
                inner: b,
                min,
                max,
            } ==> *b == inner && bound_rel(
                old(self).token_seq(),
                old(self).position(),
                final(self).position(),
                min,
                max,
            )) && r is Range,
            ({
                let s = *old(self);
                let f = *final(self);
                let quiet = f.errors_seen() == s.errors_seen() && f.warnings_seen()
                    == s.warnings_seen();
                &&& s.kind_ahead(1) matches Some(TokenKind::Number { num: m }) ==> {
                    &&& s.kind_ahead(2) == Some(TokenKind::ClosedBrace) ==> quiet
                        && f.position() == s.position() + 3 && r == (ASTNode::Range {
                        inner: Box::new(inner),
                        min: m,
                        max: Some(m),
                    })
                    &&& s.kind_ahead(2) == Some(TokenKind::Comma) && s.kind_ahead(3) == Some(
                        TokenKind::ClosedBrace,
                    ) ==> quiet && f.position() == s.position() + 4 && r == (ASTNode::Range {
                        inner: Box::new(inner),
                        min: m,
                        max: None,
                    })
                    &&& s.kind_ahead(2) == Some(TokenKind::Comma) && s.kind_ahead(4) == Some(
                        TokenKind::ClosedBrace,
                    ) ==> (s.kind_ahead(3) matches Some(TokenKind::Number { num: n }) ==> {
                        &&& f.position() == s.position() + 5
                        &&& m < n ==> quiet && r == (ASTNode::Range {
                            inner: Box::new(inner),
                            min: m,
                            max: Some(n),
                        })
                        &&& m == n ==> f.errors_seen() == s.errors_seen() && f.warnings_seen()
                            == s.warnings_seen().push(
                            Warning {
                                kind: WarningKind::UnnecessaryRangeBoundary { value: m },
                                span: Span {
                                    start: s.token_seq()[s.position()].span.start,
                                    end: s.token_seq()[s.position() + 4].span.end,
                                },
                            },
                        ) && r == (ASTNode::Range { inner: Box::new(inner), min: m, max: Some(n) })
                        &&& m > n ==> f.warnings_seen() == s.warnings_seen() && f.errors_seen()
                            == s.errors_seen().push(
                            Error {
                                kind: ErrorKind::InvalidRangeBounds { min: m, max: n },
                                span: Span {
                                    start: s.token_seq()[s.position()].span.start,
                                    end: s.token_seq()[s.position() + 4].span.end,
                                },
                            },
                        ) && r == ASTNode::Error
                    })
                }
            }),
    {
        let open = self.consume().unwrap();
        let min = match self.peek() {
            Some(Token { kind: TokenKind::Number { num }, .. }) => {
                self.consume();
                num
            },
            _ => {
                self.report_missing();
                self.skip_bound();
                return ASTNode::Error;
            },
        };
        match self.peek() {
            Some(Token { kind: TokenKind::ClosedBrace, .. }) => {
                self.consume();
                return ASTNode::Range { inner: Box::new(inner), min, max: Some(min) };
            },
            Some(Token { kind: TokenKind::Comma, .. }) => {
                self.consume();
            },
            _ => {
                self.report_missing();
                self.skip_bound();
                return ASTNode::Error;
            },
        }
        match self.peek() {
            Some(Token { kind: TokenKind::ClosedBrace, .. }) => {
                self.consume();
                return ASTNode::Range { inner: Box::new(inner), min, max: None };
            },
            _ => {},
        }
        let max = match self.peek() {
            Some(Token { kind: TokenKind::Number { num }, .. }) => {
                self.consume();
                num
            },
            _ => {
                self.report_missing();
                self.skip_bound();
                return ASTNode::Error;
            },
        };
        let close = match self.peek() {
            Some(tok) => match tok.kind {
                TokenKind::ClosedBrace => {
                    self.consume();
                    tok
                },
                _ => {
                    self.report_missing();
                    self.skip_bound();
                    return ASTNode::Error;
                },
            },
            None => {
                self.report_missing();
                return ASTNode::Error;
            },
        };
        if min > max {
            let span = Span { start: open.span.start, end: close.span.end };
            self.errors.push(Error { kind: ErrorKind::InvalidRangeBounds { min, max }, span });
            return ASTNode::Error;
        }
        if min == max {
            let span = Span { start: open.span.start, end: close.span.end };
            self.warnings.push(
                Warning { kind: WarningKind::UnnecessaryRangeBoundary { value: min }, span },
            );
        }
        ASTNode::Range { inner: Box::new(inner), min, max: Some(max) }
    }
}

impl<'src> Parser<'src> {
    /// atom := Literal | '.' | Identifier | '{' Identifier '}' | ShorthandClass
    ///       | '(' pattern ')' | '[' '^'? classitem+ ']'.
    fn parse_atom(&mut self) -> (r: ASTNode<'src>)
        requires
            old(self).wf(),
            old(self).next_kind().is_some(),
            starts_atom(old(self).next_kind().unwrap()),
        ensures
            old(self).advanced_to(final(self)),
            node_wf(r),
            final(self).position() > old(self).position(),
            ({
                let tok = old(self).token_seq()[old(self).position()];
                let simple = final(self).position() == old(self).position() + 1
                    && final(self).errors_seen() == old(self).errors_seen()
                    && final(self).warnings_seen() == old(self).warnings_seen();
                &&& tok.kind matches TokenKind::Literal { char } ==> simple && r == (
                ASTNode::Literal { char })
                &&& tok.kind == TokenKind::Period ==> simple && r == ASTNode::AnyChar
                &&& tok.kind matches TokenKind::Identifier { name } ==> simple && r == (
                ASTNode::Reference { name, span: tok.span })
                &&& tok.kind == TokenKind::OpenBrace && old(self).kind_ahead(2) == Some(
                    TokenKind::ClosedBrace,
                ) ==> (old(self).kind_ahead(1) matches Some(TokenKind::Identifier { name })
                    ==> final(self).position() == old(self).position() + 3
                    && final(self).errors_seen() == old(self).errors_seen() && r == (
                ASTNode::Reference {
                    name,
                    span: Span {
                        start: tok.span.start,
                        end: old(self).token_seq()[old(self).position() + 2].span.end,
                    },
                }))
                &&& tok.kind == TokenKind::OpenParen && old(self).kind_ahead(1) == Some(
                    TokenKind::ClosedParen,
                ) ==> r == ASTNode::Error && final(self).position() == old(self).position() + 2
                    && final(self).errors_seen().len() == old(self).errors_seen().len() + 1
                    && final(self).errors_seen().last().kind == ErrorKind::EmptyPattern
                &&& final(self).errors_seen() == old(self).errors_seen() ==> atom_rel(
                    old(self).token_seq(),
                    old(self).position(),
                    final(self).position(),
                    r,
                )
                &&& tok.kind == TokenKind::OpenParen && r != ASTNode::Error ==> (r matches ASTNode::Group {
                    span,
                    ..
                } ==> span.start == tok.span.start) && (r is Group)
            }),
        decreases old(self).token_seq().len() - old(self).position(), 0nat,
    {
        let tok = self.consume().unwrap();
        match tok.kind {
            TokenKind::Literal { char } => ASTNode::Literal { char },
            TokenKind::Period => ASTNode::AnyChar,
            TokenKind::Identifier { name } => ASTNode::Reference { name, span: tok.span },
            TokenKind::ShorthandClass { char } => {
                let negated = char == 'D' || char == 'W' || char == 'S';
                ASTNode::CharClass { negated, parts: shorthand_parts(char) }
            },
            TokenKind::OpenParen => {
                match self.peek() {
                    Some(Token { kind: TokenKind::ClosedParen, .. }) => {
                        self.report(ErrorKind::EmptyPattern);
                        self.consume();
                        return ASTNode::Error;
                    },
                    _ => {},
                }
                let inner = self.parse_alternation();
                match self.peek() {
                    Some(close) => match close.kind {
                        TokenKind::ClosedParen => {
                            self.consume();
                            ASTNode::Group {
                                inner: Box::new(inner),
                                span: Span { start: tok.span.start, end: close.span.end },
                            }
                        },
                        _ => {
                            self.report_missing();
                            ASTNode::Error
                        },
                    },
                    None => {
                        self.report_missing();
                        ASTNode::Error
                    },
                }
            },
            TokenKind::OpenBrace => {
                let name = match self.peek() {
                    Some(Token { kind: TokenKind::Identifier { name }, .. }) => {
                        self.consume();
                        name
                    },
                    _ => {
                        self.report(ErrorKind::UnexpectedToken);
                        self.skip_bound();
                        return ASTNode::Error;
                    },
                };
                match self.peek() {
                    Some(close) => match close.kind {
                        TokenKind::ClosedBrace => {
                            self.consume();
                            ASTNode::Reference {
                                name,
                                span: Span { start: tok.span.start, end: close.span.end },
                            }
                        },
                        _ => {
                            self.report_missing();
                            self.skip_bound();
                            ASTNode::Error
                        },
                    },
                    None => {
                        self.report_missing();
                        ASTNode::Error
                    },
                }
            },
            _ => self.parse_class_items(),
        }
    }

    /// classitem+ ']' after '[': items are shorthand classes, characters and
    /// ranges `a-b`; a leading '^' negates the class.
    fn parse_class_items(&mut self) -> (r: ASTNode<'src>)
        requires
            old(self).wf(),
        ensures
            old(self).advanced_to(final(self)),
            node_wf(r),
            final(self).errors_seen() == old(self).errors_seen() ==> r is CharClass
                && final(self).position() > old(self).position() && kind_is(
                final(self).token_seq(),
                final(self).position() - 1,
                TokenKind::ClosedBrack,
            ) && class_body_rel(
                old(self).token_seq(),
                old(self).position(),
                final(self).position() - 1,
                r,
            ),
    {
        let mut negated = false;
        match self.peek() {
            Some(Token { kind: TokenKind::Caret, .. }) => {
                self.consume();
                negated = true;
            },
            _ => {},
        }
        let ghost s = self.index as int;
        let mut parts: Vec<CharClassPart> = Vec::new();
        loop
            invariant_except_break
                self.errors@ == old(self).errors@ ==> class_items_rel(
                    self.tokens@,
                    s,
                    self.index as int,
                    parts@,
                ),
            invariant
                old(self).advanced_to(self),
                forall|i: int| 0 <= i < parts@.len() ==> part_wf(#[trigger] parts@[i]),
                s <= self.index,
                s == old(self).index + if negated { 1int } else { 0int },
                negated ==> kind_is(self.tokens@, old(self).index as int, TokenKind::Caret),
            ensures
                old(self).advanced_to(self),
                forall|i: int| 0 <= i < parts@.len() ==> part_wf(#[trigger] parts@[i]),
                self.position() > old(self).position(),
                kind_is(self.tokens@, self.index - 1, TokenKind::ClosedBrack),
                s <= self.index - 1,
                s == old(self).index + if negated { 1int } else { 0int },
                negated ==> kind_is(self.tokens@, old(self).index as int, TokenKind::Caret),
                self.errors@ == old(self).errors@ ==> class_items_rel(
                    self.tokens@,
                    s,
                    self.index - 1,
                    parts@,
                ),
            decreases self.tokens@.len() - self.index,
        {
            let ghost p0 = parts@;
            let ghost i0 = self.index as int;
            let tok = match self.peek() {
                Some(t) => t,
                None => {
                    self.report(ErrorKind::UnexpectedEOF);
                    return ASTNode::Error;
                },
            };
            match tok.kind {
                TokenKind::Newline => {
                    self.report(ErrorKind::UnexpectedEOF);
                    return ASTNode::Error;
                },
                TokenKind::ClosedBrack => {
                    self.consume();
                    break;
                },
                TokenKind::Error => {
                    self.consume();
                },
                TokenKind::ShorthandClass { char } => {
                    let mut more = class_shorthand_parts(char);
                    parts.append(&mut more);
                    proof {
                        let n = class_shorthand_spec(char).len();
                        assert(parts@.subrange(parts@.len() - n, parts@.len() as int) =~= class_shorthand_spec(char));
                        assert(parts@.subrange(0, parts@.len() - n) =~= p0);
                    }
                    self.consume();
                },
                _ => {
                    match class_char_of(&tok.kind) {
                        Some(c) => {
                            self.consume();
                            let upper = match self.peek() {
                                Some(Token { kind: TokenKind::Hyphen, .. }) => match self.peek_second() {
                                    Some(k) => class_char_of(&k),
                                    None => None,
                                },
                                _ => None,
                            };
                            match upper {
                                Some(d) => {
                                    self.consume();
                                    self.consume();
                                    if c <= d {
                                        parts.push(CharClassPart::Range { min: c, max: d });
                                        assert(parts@.drop_last() =~= p0);
                                    } else {
                                        self.errors.push(
                                            Error {
                                                kind: ErrorKind::InvalidCharRange { first: c, last: d },
                                                span: tok.span,
                                            },
                                        );
                                    }
                                },
                                None => {
                                    parts.push(CharClassPart::Literal { char: c });
                                    assert(parts@.drop_last() =~= p0);
                                },
                            }
                        },
                        None => {
                            self.report(ErrorKind::UnexpectedToken);
                            self.consume();
                        },
                    }
                },
            }
        }
        if parts.len() == 0 {
            self.report(ErrorKind::EmptyPattern);
            return ASTNode::Error;
        }
        ASTNode::CharClass { negated, parts }
    }
}

impl<'src> Parser<'src> {
    /// Skips to just past the next line end, or to the end of the input.
    fn skip_line(&mut self)
        requires
            old(self).wf(),
        ensures
            old(self).advanced_to(final(self)),
            final(self).errors_seen() == old(self).errors_seen(),
            final(self).warnings_seen() == old(self).warnings_seen(),
            old(self).position() < old(self).token_seq().len() ==> final(self).position()
                > old(self).position(),
    {
        loop
            invariant
                old(self).advanced_to(self),
                self.errors@ == old(self).errors@,
                self.warnings@ == old(self).warnings@,
            ensures
                old(self).advanced_to(self),
                self.errors@ == old(self).errors@,
                self.warnings@ == old(self).warnings@,
                old(self).position() < old(self).token_seq().len() ==> self.position()
                    > old(self).position(),
            decreases self.tokens@.len() - self.index,
        {
            match self.consume() {
                None => {
                    break;
                },
                Some(Token { kind: TokenKind::Newline, .. }) => {
                    break;
                },
                Some(_) => {},
            }
        }
    }

    /// rule := Identifier '=' pattern (Newline | end). Reads the next rule,
    /// giving it `kind`; a line that is no rule is reported and skipped, and
    /// `None` comes once the input is used up.
    pub fn next_rule(&mut self, kind: RuleKind) -> (r: Option<Rule<'src>>)
        requires
            old(self).wf(),
        ensures
            old(self).advanced_to(final(self)),
            r.is_none() ==> final(self).position() == final(self).token_seq().len(),
            r.is_none() && final(self).errors_seen() == old(self).errors_seen() ==> forall|i: int|
                old(self).position() <= i < old(self).token_seq().len() ==> (#[trigger] old(
                    self,
                ).token_seq()[i]).kind == TokenKind::Newline,
            r.is_some() ==> r.unwrap().kind == kind && node_wf(r.unwrap().pattern),
            forall|p: int|
                #[trigger] rule_start(old(self).token_seq(), old(self).position(), p) ==> r.is_some()
                    && old(self).token_seq()[p].kind == (TokenKind::Identifier {
                    name: r.unwrap().name,
                }) && old(self).token_seq()[p].span == r.unwrap().name_span
                    && final(self).position() > p + 1,
            r.is_some() ==> exists|i: int|
                old(self).position() <= i < final(self).position() && (#[trigger] old(
                    self,
                ).token_seq()[i]).kind == (TokenKind::Identifier { name: r.unwrap().name })
                    && old(self).token_seq()[i].span == r.unwrap().name_span,
            r.is_some() && final(self).errors_seen() == old(self).errors_seen() ==> exists|
                p: int,
                q: int,
            |
                #[trigger] rule_shape(old(self).token_seq(), p, q, r.unwrap().pattern)
                    && old(self).position() < p && q <= final(self).position() && (
                final(self).position() == q || (final(self).position() == q + 1 && kind_is(
                    old(self).token_seq(),
                    q,
                    TokenKind::Newline,
                ))) && (q == old(self).token_seq().len() || kind_is(
                    old(self).token_seq(),
                    q,
                    TokenKind::Newline,
                )),
    {
        loop
            invariant
                old(self).advanced_to(self),
                self.errors@ == old(self).errors@ ==> forall|i: int|
                    old(self).index <= i < self.index ==> (#[trigger] self.tokens@[i]).kind
                        == TokenKind::Newline,
                forall|p: int|
                    #[trigger] rule_start(old(self).tokens@, old(self).index as int, p) ==> self.index
                        <= p && rule_start(self.tokens@, self.index as int, p),
            decreases self.tokens@.len() - self.index,
        {
            let ghost i0 = self.index as int;
            let first = match self.peek() {
                None => {
                    return None;
                },
                Some(t) => t,
            };
            proof {
                assert forall|p: int| #[trigger]
                    rule_start(old(self).tokens@, old(self).index as int, p) implies (first.kind
                    == TokenKind::Newline ==> p > i0 && rule_start(self.tokens@, i0 + 1, p)) && (
                first.kind != TokenKind::Newline ==> p == i0) by {
                    lemma_rule_start_step(self.tokens@, i0, p);
                }
            }
            let name = match first.kind {
                TokenKind::Newline => {
                    self.consume();
                    continue;
                },
                TokenKind::Identifier { name } => {
                    self.consume();
                    name
                },
                _ => {
                    self.report(ErrorKind::UnexpectedToken);
                    self.skip_line();
                    continue;
                },
            };
            match self.peek() {
                Some(Token { kind: TokenKind::Equals, .. }) => {
                    self.consume();
                },
                _ => {
                    self.report_missing();
                    self.skip_line();
                    continue;
                },
            }
            let ghost p = self.index - 1;
            let ghost e0 = self.errors@;
            let pattern = self.parse_alternation();
            let ghost q = self.index as int;
            let ghost e1 = self.errors@;
            match self.peek() {
                None => {},
                Some(Token { kind: TokenKind::Newline, .. }) => {
                    self.consume();
                },
                Some(_) => {
                    self.report(ErrorKind::UnexpectedToken);
                    self.skip_line();
                },
            }
            proof {
                if self.errors@ == old(self).errors@ {
                    lemma_prefix_squeeze(old(self).errors@, e1, self.errors@);
                    lemma_prefix_squeeze(old(self).errors@, e0, e1);
                    assert(rule_shape(old(self).tokens@, p, q, pattern));
                }
            }
            return Some(Rule { name, name_span: first.span, kind, pattern });
        }
    }
}

} // verus!

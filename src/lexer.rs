use vstd::prelude::*;

use crate::chars::{
    ascii_letter, byte_offset, bytes_len, char_from_u32, char_len, decimal_value,
    hex_digit, hex_digit_value, hex_value, is_ascii_letter, is_digit, is_scalar,
    is_whitespace, lemma_byte_offset_bounded, lemma_byte_offset_step, lemma_bytes_len_prefix,
    lemma_decimal_prefix, spec_is_digit, utf8_len, whitespace,
};
use crate::error::{Error, ErrorKind};
use crate::regex::{
    control_to_literal, is_control_char, is_escaped_literal, is_shorthand_class,
    spec_control_literal, spec_is_control_char, spec_is_escaped_literal, spec_is_shorthand_class,
};
use crate::span::Span;
use crate::token::{Token, TokenKind};

verus! {

/// Whitespace that separates tokens outside a character class; a line feed
/// ends a rule and so is a token of its own.
pub open spec fn skippable(c: char) -> bool {
    whitespace(c) && c != '\n'
}

/// Whether `c` may start an identifier.
pub open spec fn ident_start(c: char) -> bool {
    ascii_letter(c) || c == '_'
}

/// Whether `c` may continue an identifier.
pub open spec fn ident_continue(c: char) -> bool {
    ascii_letter(c) || spec_is_digit(c) || c == '_'
}

/// Index of the first character at or after `i` that is not skipped.
pub open spec fn skip_end(s: Seq<char>, i: int, in_brackets: bool) -> int
    decreases s.len() - i,
{
    if in_brackets || i < 0 || i >= s.len() || !skippable(s[i]) {
        i
    } else {
        skip_end(s, i + 1, in_brackets)
    }
}

pub proof fn lemma_skip_end(s: Seq<char>, i: int, in_brackets: bool)
    requires
        0 <= i <= s.len(),
    ensures
        i <= skip_end(s, i, in_brackets) <= s.len(),
    decreases s.len() - i,
{
    if !(in_brackets || i >= s.len() || !skippable(s[i])) {
        lemma_skip_end(s, i + 1, in_brackets);
    }
}

/// Index just past the run of characters from `i` on that satisfy `p`, stopping at `i + cap`.
pub open spec fn run_end(s: Seq<char>, i: int, cap: int, p: spec_fn(char) -> bool) -> int
    decreases s.len() - i, cap,
{
    if i < 0 || i >= s.len() || cap <= 0 || !p(s[i]) {
        i
    } else {
        run_end(s, i + 1, cap - 1, p)
    }
}

pub open spec fn is_hex(c: char) -> bool {
    hex_digit(c).is_some()
}

pub open spec fn digit_pred() -> spec_fn(char) -> bool {
    |c: char| spec_is_digit(c)
}

pub open spec fn hex_pred() -> spec_fn(char) -> bool {
    |c: char| is_hex(c)
}

pub open spec fn ident_pred() -> spec_fn(char) -> bool {
    |c: char| ident_continue(c)
}

pub proof fn lemma_run_end(s: Seq<char>, i: int, cap: int, p: spec_fn(char) -> bool)
    requires
        0 <= i <= s.len(),
    ensures
        i <= run_end(s, i, cap, p) <= s.len(),
        cap >= 0 ==> run_end(s, i, cap, p) <= i + cap,
        forall|k: int| i <= k < run_end(s, i, cap, p) ==> p(#[trigger] s[k]),
        run_end(s, i, cap, p) < s.len() && run_end(s, i, cap, p) < i + cap ==> !p(
            s[run_end(s, i, cap, p)],
        ),
    decreases s.len() - i, cap,
{
    if i < s.len() && cap > 0 && p(s[i]) {
        lemma_run_end(s, i + 1, cap - 1, p);
    }
}

pub open spec fn pow16(n: nat) -> nat
    decreases n,
{
    if n == 0 {
        1
    } else {
        16 * pow16((n - 1) as nat)
    }
}

/// Number of hex digits that the escape letter `c` asks for.
pub open spec fn hex_width(c: char) -> int {
    if c == 'x' {
        2
    } else if c == 'u' {
        4
    } else {
        8
    }
}

pub open spec fn is_hex_escape(c: char) -> bool {
    c == 'x' || c == 'u' || c == 'U'
}

/// End of the hex digits of a hex escape whose letter stands at `b + 1`.
pub open spec fn hex_end(t: Seq<char>, b: int) -> int {
    run_end(t, b + 2, hex_width(t[b + 1]), hex_pred())
}

/// Value of the hex digits of a hex escape whose letter stands at `b + 1`.
pub open spec fn hex_escape_value(t: Seq<char>, b: int) -> nat {
    hex_value(t.subrange(b + 2, hex_end(t, b)))
}

/// Index just past an escape whose backslash stands at `b`.
pub open spec fn escape_end(t: Seq<char>, b: int) -> int {
    if b + 1 >= t.len() {
        b + 1
    } else if is_hex_escape(t[b + 1]) {
        hex_end(t, b)
    } else {
        b + 2
    }
}

/// The error that an escape whose backslash stands at `b` reports, if any.
pub open spec fn escape_error(t: Seq<char>, b: int) -> Option<ErrorKind> {
    if b + 1 >= t.len() {
        Some(ErrorKind::UnexpectedEOF)
    } else {
        let c = t[b + 1];
        if is_hex_escape(c) {
            if hex_end(t, b) - (b + 2) < hex_width(c) {
                Some(ErrorKind::InvalidHexEscape { char: c, expected_digits: hex_width(c) as usize })
            } else if !is_scalar(hex_escape_value(t, b) as u32) {
                Some(ErrorKind::InvalidUnicodeScalar { value: hex_escape_value(t, b) as u32 })
            } else {
                None
            }
        } else if spec_is_escaped_literal(c) || spec_is_control_char(c) || spec_is_shorthand_class(c) {
            None
        } else {
            Some(ErrorKind::InvalidEscapeCharacter { char: c })
        }
    }
}

/// Whether `k` is the token that an escape whose backslash stands at `b` gives.
pub open spec fn escape_kind_ok(t: Seq<char>, b: int, k: TokenKind) -> bool {
    if escape_error(t, b).is_some() {
        k == TokenKind::Error
    } else {
        let c = t[b + 1];
        if is_hex_escape(c) {
            match k {
                TokenKind::Literal { char } => char as u32 == hex_escape_value(t, b),
                _ => false,
            }
        } else if spec_is_escaped_literal(c) {
            k == (TokenKind::Literal { char: c })
        } else if spec_is_control_char(c) {
            k == (TokenKind::Literal { char: spec_control_literal(c).unwrap() })
        } else {
            k == (TokenKind::ShorthandClass { char: c })
        }
    }
}

/// The error list after an error of kind `e`, if any, at `span`.
pub open spec fn with_error(errs: Seq<Error>, e: Option<ErrorKind>, span: Span) -> Seq<Error> {
    match e {
        Some(kind) => errs.push(Error { kind, span }),
        None => errs,
    }
}

pub open spec fn span_of(t: Seq<char>, a: int, b: int) -> Span {
    Span { start: byte_offset(t, a) as usize, end: byte_offset(t, b) as usize }
}

/// The token that a one-character symbol gives in the current context, if it is one.
pub open spec fn punct_kind<'a>(c: char, in_braces: bool, in_brackets: bool, expecting_expr: bool) -> Option<TokenKind<'a>> {
    if c == '|' {
        Some(TokenKind::Pipe)
    } else if c == '*' {
        Some(TokenKind::Star)
    } else if c == '+' {
        Some(TokenKind::Plus)
    } else if c == '?' {
        Some(TokenKind::QMark)
    } else if c == '{' {
        Some(TokenKind::OpenBrace)
    } else if c == '}' {
        Some(TokenKind::ClosedBrace)
    } else if c == '[' {
        Some(TokenKind::OpenBrack)
    } else if c == ']' {
        Some(TokenKind::ClosedBrack)
    } else if c == '(' {
        Some(TokenKind::OpenParen)
    } else if c == ')' {
        Some(TokenKind::ClosedParen)
    } else if c == '$' {
        Some(TokenKind::Dollar)
    } else if c == '^' && in_brackets {
        Some(TokenKind::Caret)
    } else if c == '-' && in_brackets {
        Some(TokenKind::Hyphen)
    } else if c == ',' && in_braces {
        Some(TokenKind::Comma)
    } else if c == '=' && !expecting_expr {
        Some(TokenKind::Equals)
    } else if c == '\n' {
        Some(TokenKind::Newline)
    } else if c == '.' {
        Some(TokenKind::Period)
    } else {
        None
    }
}

/// Whether `c` starts an identifier in the current context.
pub open spec fn starts_identifier(c: char, in_braces: bool, expecting_expr: bool) -> bool {
    (!expecting_expr && ident_start(c)) || (in_braces && ascii_letter(c))
}

/// Scans a rule-definition source into tokens, and collects lexical errors on the way.
pub struct Lexer<'src> {
    source: &'src str,
    chars: Vec<char>,
    pos: usize,
    offset: usize,
    is_in_braces: bool,
    is_in_brackets: bool,
    is_expecting_expr: bool,
    errors: Vec<Error>,
}

impl<'src> Lexer<'src> {
    pub closed spec fn text(&self) -> Seq<char> {
        self.chars@
    }

    pub closed spec fn source_text(&self) -> Seq<char> {
        self.source@
    }

    /// Index of the next character to be read.
    pub closed spec fn position(&self) -> int {
        self.pos as int
    }

    /// Byte offset of the next character to be read.
    pub closed spec fn byte_pos(&self) -> int {
        self.offset as int
    }

    pub closed spec fn in_braces(&self) -> bool {
        self.is_in_braces
    }

    pub closed spec fn in_brackets(&self) -> bool {
        self.is_in_brackets
    }

    pub closed spec fn expecting_expr(&self) -> bool {
        self.is_expecting_expr
    }

    pub closed spec fn errors_seen(&self) -> Seq<Error> {
        self.errors@
    }

    pub closed spec fn wf(&self) -> bool {
        &&& self.chars@ == self.source@
        &&& self.pos <= self.chars@.len()
        &&& self.offset == byte_offset(self.chars@, self.pos as int)
        &&& bytes_len(self.chars@) <= usize::MAX
    }

    /// The next character, if any is left.
    pub closed spec fn cur(&self) -> Option<char> {
        if self.pos < self.chars@.len() {
            Some(self.chars@[self.pos as int])
        } else {
            None
        }
    }

    /// The lexer keeps its text and may only move forward.
    pub open spec fn same_text(&self, other: &Self) -> bool {
        &&& other.text() == self.text()
        &&& other.source_text() == self.source_text()
    }

    pub open spec fn same_flags(&self, other: &Self) -> bool {
        &&& other.in_braces() == self.in_braces()
        &&& other.in_brackets() == self.in_brackets()
        &&& other.expecting_expr() == self.expecting_expr()
    }

    pub fn new(source: &'src str) -> (r: Self)
        requires
            bytes_len(source@) <= usize::MAX,
        ensures
            r.wf(),
            r.text() == source@,
            r.source_text() == source@,
            r.position() == 0,
            r.byte_pos() == 0,
            !r.in_braces(),
            !r.in_brackets(),
            !r.expecting_expr(),
            r.errors_seen() == Seq::<Error>::empty(),
    {
        let n = source.unicode_len();
        let mut chars: Vec<char> = Vec::new();
        let mut i: usize = 0;
        while i < n
            invariant
                n == source@.len(),
                i <= n,
                chars@ == source@.take(i as int),
            decreases n - i,
        {
            chars.push(source.get_char(i));
            i = i + 1;
            assert(chars@ =~= source@.take(i as int));
        }
        assert(chars@ =~= source@);
        assert(source@.take(0) =~= Seq::<char>::empty());
        Lexer {
            source,
            chars,
            pos: 0,
            offset: 0,
            is_in_braces: false,
            is_in_brackets: false,
            is_expecting_expr: false,
            errors: Vec::new(),
        }
    }

    /// Errors found so far, in the order found.
    pub fn errors(&self) -> (r: &Vec<Error>)
        ensures
            r@ == self.errors_seen(),
    {
        &self.errors
    }

    fn peek(&self) -> (r: Option<char>)
        requires
            self.wf(),
        ensures
            r == self.cur(),
    {
        if self.pos < self.chars.len() {
            Some(self.chars[self.pos])
        } else {
            None
        }
    }

    fn consume(&mut self) -> (r: Option<char>)
        requires
            old(self).wf(),
        ensures
            final(self).wf(),
            old(self).same_text(final(self)),
            old(self).same_flags(final(self)),
            final(self).errors_seen() == old(self).errors_seen(),
            r == old(self).cur(),
            final(self).position() == if r.is_some() {
                old(self).position() + 1
            } else {
                old(self).position()
            },
    {
        if self.pos < self.chars.len() {
            let c = self.chars[self.pos];
            proof {
                lemma_byte_offset_step(self.chars@, self.pos as int);
                lemma_byte_offset_bounded(self.chars@, self.pos + 1);
            }
            self.offset = self.offset + char_len(c);
            self.pos = self.pos + 1;
            Some(c)
        } else {
            None
        }
    }

    fn skip_whitespace(&mut self)
        requires
            old(self).wf(),
        ensures
            final(self).wf(),
            old(self).same_text(final(self)),
            old(self).same_flags(final(self)),
            final(self).errors_seen() == old(self).errors_seen(),
            final(self).position() == skip_end(
                old(self).text(),
                old(self).position(),
                old(self).in_brackets(),
            ),
    {
        if self.is_in_brackets {
            return;
        }
        loop
            invariant
                self.wf(),
                old(self).wf(),
                old(self).same_text(self),
                old(self).same_flags(self),
                !self.is_in_brackets,
                self.errors@ == old(self).errors@,
                self.pos >= old(self).pos,
                skip_end(self.chars@, self.pos as int, false) == skip_end(
                    old(self).chars@,
                    old(self).pos as int,
                    false,
                ),
            decreases self.chars@.len() - self.pos,
        {
            match self.peek() {
                Some(c) => {
                    if is_whitespace(c) && c != '\n' {
                        self.consume();
                    } else {
                        return;
                    }
                },
                None => {
                    return;
                },
            }
        }
    }
}

pub proof fn lemma_pow16_le(k: nat)
    requires
        k <= 8,
    ensures
        pow16(k) <= 4294967296,
        pow16(k) >= 1,
    decreases 8 - k,
{
    reveal_with_fuel(pow16, 9);
    if k < 8 {
        lemma_pow16_le(k + 1);
    }
}

impl<'src> Lexer<'src> {
    /// Reads a run of decimal digits; `None` when there is none or its value
    /// does not fit in `usize`, which the latter reports as `IntegerOverflow`.
    fn consume_number(&mut self) -> (r: Option<usize>)
        requires
            old(self).wf(),
        ensures
            final(self).wf(),
            old(self).same_text(final(self)),
            old(self).same_flags(final(self)),
            ({
                let t = old(self).text();
                let s = old(self).position();
                let e = run_end(t, s, t.len() - s, digit_pred());
                let v = decimal_value(t.subrange(s, e));
                &&& final(self).position() == e
                &&& s == e ==> r.is_none() && final(self).errors_seen() == old(self).errors_seen()
                &&& s < e && v <= usize::MAX ==> r == Some(v as usize)
                    && final(self).errors_seen() == old(self).errors_seen()
                &&& s < e && v > usize::MAX ==> r.is_none() && final(self).errors_seen()
                    == old(self).errors_seen().push(
                    Error { kind: ErrorKind::IntegerOverflow, span: span_of(t, s, e) },
                )
            }),
    {
        let ghost t = self.chars@;
        let ghost e = run_end(t, self.pos as int, t.len() - self.pos, digit_pred());
        proof {
            lemma_run_end(t, self.pos as int, t.len() - self.pos, digit_pred());
        }
        let start = self.pos;
        let span_start = self.offset;
        loop
            invariant
                self.wf(),
                old(self).wf(),
                old(self).same_text(self),
                old(self).same_flags(self),
                self.errors@ == old(self).errors@,
                t == self.chars@,
                start == old(self).pos,
                span_start == old(self).offset,
                start <= self.pos,
                run_end(t, self.pos as int, t.len() - self.pos, digit_pred()) == e,
            ensures
                self.pos == e,
            decreases t.len() - self.pos,
        {
            match self.peek() {
                Some(c) => {
                    if is_digit(c) {
                        self.consume();
                    } else {
                        assert(!digit_pred()(c));
                        break;
                    }
                },
                None => {
                    break;
                },
            }
        }
        let end = self.pos;
        if start == end {
            return None;
        }
        let mut value: usize = 0;
        let mut i: usize = start;
        while i < end
            invariant
                self.wf(),
                old(self).wf(),
                old(self).same_text(self),
                old(self).same_flags(self),
                self.errors@ == old(self).errors@,
                self.pos == end,
                start == old(self).pos,
                span_start == old(self).offset,
                t == self.chars@,
                start <= i <= end,
                end as int == e,
                e == run_end(t, start as int, t.len() - start, digit_pred()),
                end <= t.len(),
                value as nat == decimal_value(t.subrange(start as int, i as int)),
                forall|k: int| start <= k < end ==> digit_pred()(#[trigger] t[k]),
            decreases end - i,
        {
            let digit = (self.chars[i] as u32 - '0' as u32) as usize;
            assert(t.subrange(start as int, i + 1).drop_last() =~= t.subrange(start as int, i as int));
            let ghost next = decimal_value(t.subrange(start as int, i + 1));
            proof {
                lemma_decimal_prefix(t.subrange(start as int, end as int), i + 1 - start);
                assert(t.subrange(start as int, end as int).take(i + 1 - start) =~= t.subrange(start as int, i + 1));
                assert(t.subrange(start as int, i + 1).last() == t[i as int]);
                assert(digit_pred()(t[i as int]));
                assert(next == 10 * value + digit);
            }
            match value.checked_mul(10) {
                Some(m) => {
                    match m.checked_add(digit) {
                        Some(a) => {
                            value = a;
                        },
                        None => {
                            assert(next > usize::MAX);
                            assert(decimal_value(t.subrange(start as int, end as int)) > usize::MAX);
                            self.errors.push(Error { kind: ErrorKind::IntegerOverflow, span: Span { start: span_start, end: self.offset } });

                            return None;
                        },
                    }
                },
                None => {
                    assert(next > usize::MAX);
                    assert(decimal_value(t.subrange(start as int, end as int)) > usize::MAX);
                    self.errors.push(Error { kind: ErrorKind::IntegerOverflow, span: Span { start: span_start, end: self.offset } });
                    return None;
                },
            }
            i = i + 1;
        }
        Some(value)
    }
}

impl<'src> Lexer<'src> {
    /// Reads up to `required` hex digits; gives their value and how many were read.
    fn consume_hex(&mut self, required: usize) -> (r: (u32, usize))
        requires
            old(self).wf(),
            required <= 8,
        ensures
            final(self).wf(),
            old(self).same_text(final(self)),
            old(self).same_flags(final(self)),
            final(self).errors_seen() == old(self).errors_seen(),
            ({
                let t = old(self).text();
                let s = old(self).position();
                let e = run_end(t, s, required as int, hex_pred());
                &&& final(self).position() == e
                &&& r.1 == e - s
                &&& r.0 as nat == hex_value(t.subrange(s, e))
            }),
    {
        let ghost t = self.chars@;
        let ghost s = self.pos as int;
        let ghost e = run_end(t, s, required as int, hex_pred());
        proof {
            lemma_run_end(t, s, required as int, hex_pred());
            assert(t.subrange(s, s) =~= Seq::<char>::empty());
        }
        let mut value: u32 = 0;
        let mut count: usize = 0;
        while count < required
            invariant
                self.wf(),
                old(self).wf(),
                old(self).same_text(self),
                old(self).same_flags(self),
                self.errors@ == old(self).errors@,
                t == self.chars@,
                s == old(self).pos,
                e == run_end(t, s, required as int, hex_pred()),
                count <= required <= 8,
                self.pos == s + count,
                run_end(t, self.pos as int, required - count, hex_pred()) == e,
                value as nat == hex_value(t.subrange(s, self.pos as int)),
                (value as nat) < pow16(count as nat),
            ensures
                self.pos == e,
                value as nat == hex_value(t.subrange(s, self.pos as int)),
            decreases required - count,
        {
            let digit_char = match self.peek() {
                Some(c) => c,
                None => {
                    break;
                },
            };
            let digit = match hex_digit_value(digit_char) {
                Some(d) => d,
                None => {
                    assert(!hex_pred()(digit_char));
                    break;
                },
            };
            proof {
                assert(hex_pred()(digit_char));
                lemma_pow16_le((count + 1) as nat);
                assert(t.subrange(s, self.pos + 1).drop_last() =~= t.subrange(s, self.pos as int));
                assert(t.subrange(s, self.pos + 1).last() == digit_char);
                assert(16 * (value as nat) + (digit as nat) < 16 * pow16(count as nat));
            }
            value = value * 16 + digit;
            self.consume();
            count = count + 1;
        }
        (value, count)
    }

    /// Reads an identifier whose first character is the next one.
    fn consume_identifier(&mut self) -> (r: &'src str)
        requires
            old(self).wf(),
            old(self).cur().is_some(),
            ident_start(old(self).cur().unwrap()),
        ensures
            final(self).wf(),
            old(self).same_text(final(self)),
            old(self).same_flags(final(self)),
            final(self).errors_seen() == old(self).errors_seen(),
            ({
                let t = old(self).text();
                let s = old(self).position();
                let e = run_end(t, s + 1, t.len() - (s + 1), ident_pred());
                &&& final(self).position() == e
                &&& r@ == t.subrange(s, e)
            }),
    {
        let ghost t = self.chars@;
        let start = self.pos;
        self.consume();
        let ghost e = run_end(t, start + 1, t.len() - (start + 1), ident_pred());
        loop
            invariant
                self.wf(),
                old(self).wf(),
                old(self).same_text(self),
                old(self).same_flags(self),
                self.errors@ == old(self).errors@,
                t == self.chars@,
                start == old(self).pos,
                e == run_end(t, start + 1, t.len() - (start + 1), ident_pred()),
                start < self.pos,
                run_end(t, self.pos as int, t.len() - self.pos, ident_pred()) == e,
            ensures
                self.pos == e,
            decreases t.len() - self.pos,
        {
            match self.peek() {
                Some(c) => {
                    if is_ascii_letter(c) || is_digit(c) || c == '_' {
                        self.consume();
                    } else {
                        assert(!ident_pred()(c));
                        break;
                    }
                },
                None => {
                    break;
                },
            }
        }
        proof {
            lemma_run_end(t, start + 1, t.len() - (start + 1), ident_pred());
        }
        self.source.substring_char(start, self.pos)
    }
}

impl<'src> Lexer<'src> {
    /// Reads an escape whose backslash is the next character.
    fn tokenize_escape(&mut self) -> (r: Token<'src>)
        requires
            old(self).wf(),
            old(self).cur() == Some('\\'),
        ensures
            final(self).wf(),
            old(self).same_text(final(self)),
            old(self).same_flags(final(self)),
            ({
                let t = old(self).text();
                let b = old(self).position();
                let e = escape_end(t, b);
                &&& final(self).position() == e
                &&& r.span == span_of(t, b, e)
                &&& escape_kind_ok(t, b, r.kind)
                &&& final(self).errors_seen() == with_error(
                    old(self).errors_seen(),
                    escape_error(t, b),
                    r.span,
                )
            }),
    {
        let span_start = self.offset;
        self.consume();
        let escaped = match self.peek() {
            Some(c) => c,
            None => {
                let span = Span { start: span_start, end: self.offset };
                self.errors.push(Error { kind: ErrorKind::UnexpectedEOF, span });
                return Token { kind: TokenKind::Error, span };
            },
        };
        if escaped == 'x' {
            return self.tokenize_unicode_escape('x', 2);
        }
        if escaped == 'u' {
            return self.tokenize_unicode_escape('u', 4);
        }
        if escaped == 'U' {
            return self.tokenize_unicode_escape('U', 8);
        }
        let kind = if is_escaped_literal(escaped) {
            self.consume();
            TokenKind::Literal { char: escaped }
        } else if is_control_char(escaped) {
            self.consume();
            match control_to_literal(escaped) {
                Some(literal) => TokenKind::Literal { char: literal },
                None => TokenKind::Error,
            }
        } else if is_shorthand_class(escaped) {
            self.consume();
            TokenKind::ShorthandClass { char: escaped }
        } else {
            self.consume();
            let span = Span { start: span_start, end: self.offset };
            self.errors.push(Error { kind: ErrorKind::InvalidEscapeCharacter { char: escaped }, span });
            TokenKind::Error
        };
        Token { kind, span: Span { start: span_start, end: self.offset } }
    }

    /// Reads the hex digits of a hex escape whose letter is the next character.
    fn tokenize_unicode_escape(&mut self, escape_char: char, required_digits: usize) -> (r: Token<'src>)
        requires
            old(self).wf(),
            1 <= old(self).position(),
            old(self).text()[old(self).position() - 1] == '\\',
            old(self).cur() == Some(escape_char),
            is_hex_escape(escape_char),
            required_digits == hex_width(escape_char),
        ensures
            final(self).wf(),
            old(self).same_text(final(self)),
            old(self).same_flags(final(self)),
            ({
                let t = old(self).text();
                let b = old(self).position() - 1;
                let e = escape_end(t, b);
                &&& final(self).position() == e
                &&& r.span == span_of(t, b, e)
                &&& escape_kind_ok(t, b, r.kind)
                &&& final(self).errors_seen() == with_error(
                    old(self).errors_seen(),
                    escape_error(t, b),
                    r.span,
                )
            }),
    {
        proof {
            lemma_byte_offset_step(self.chars@, self.pos - 1);
        }
        let span_start = self.offset - 1;
        self.consume();
        let (value, consumed) = self.consume_hex(required_digits);
        let span = Span { start: span_start, end: self.offset };
        if consumed != required_digits {
            proof {
                let t = old(self).chars@;
                let b = old(self).pos - 1;
                lemma_run_end(t, b + 2, hex_width(escape_char), hex_pred());
                assert(hex_end(t, b) - (b + 2) < hex_width(t[b + 1]));
                assert(escape_error(t, b) == Some(ErrorKind::InvalidHexEscape { char: escape_char, expected_digits: required_digits }));
            }
            self.errors.push(Error {
                kind: ErrorKind::InvalidHexEscape { char: escape_char, expected_digits: required_digits },
                span,
            });
            return Token { kind: TokenKind::Error, span };
        }
        match char_from_u32(value) {
            Some(char) => Token { kind: TokenKind::Literal { char }, span },
            None => {
                self.errors.push(Error { kind: ErrorKind::InvalidUnicodeScalar { value }, span });
                Token { kind: TokenKind::Error, span }
            },
        }
    }
}

impl<'src> Lexer<'src> {
    /// The flags after the symbol `c` was read as a one-character token.
    pub open spec fn flags_follow(&self, other: &Self, c: char) -> bool {
        &&& other.in_braces() == if c == '{' {
            true
        } else if c == '}' {
            false
        } else {
            self.in_braces()
        }
        &&& other.in_brackets() == if c == '[' {
            true
        } else if c == ']' {
            false
        } else {
            self.in_brackets()
        }
        &&& other.expecting_expr() == if c == '=' {
            true
        } else if c == '\n' {
            false
        } else {
            self.expecting_expr()
        }
    }

    /// What one call of `next_token` does: from this state to `after`, giving `r`.
    pub open spec fn step(&self, after: &Self, r: Option<Token<'src>>) -> bool {
        &&& after.wf()
        &&& self.same_text(after)
        &&& after.position() >= self.position()
        &&& ({
            let t = self.text();
            let q = skip_end(t, self.position(), self.in_brackets());
            let errs = self.errors_seen();
            let braces = self.in_braces();
            let brackets = self.in_brackets();
            let expecting = self.expecting_expr();
            &&& r.is_none() <==> q >= t.len()
            &&& r.is_none() ==> after.errors_seen() == errs && self.same_flags(after)
            &&& r.is_some() ==> {
                let c = t[q];
                let tok = r.unwrap();
                &&& after.position() > q
                &&& tok.span == span_of(t, q, after.position())
                &&& punct_kind::<'src>(c, braces, brackets, expecting).is_none() ==> self.same_flags(after)
                &&& if punct_kind::<'src>(c, braces, brackets, expecting).is_some() {
                    &&& tok.kind == punct_kind::<'src>(c, braces, brackets, expecting).unwrap()
                    &&& after.position() == q + 1
                    &&& after.errors_seen() == errs
                    &&& self.flags_follow(after, c)
                } else if starts_identifier(c, braces, expecting) {
                    let e = run_end(t, q + 1, t.len() - (q + 1), ident_pred());
                    &&& after.position() == e
                    &&& after.errors_seen() == errs
                    &&& match tok.kind {
                        TokenKind::Identifier { name } => name@ == t.subrange(q, e),
                        _ => false,
                    }
                } else if braces && spec_is_digit(c) {
                    let e = run_end(t, q, t.len() - q, digit_pred());
                    let v = decimal_value(t.subrange(q, e));
                    &&& after.position() == e
                    &&& v <= usize::MAX ==> tok.kind == (TokenKind::Number { num: v as usize })
                        && after.errors_seen() == errs
                    &&& v > usize::MAX ==> tok.kind == TokenKind::Error
                        && after.errors_seen() == errs.push(
                        Error { kind: ErrorKind::IntegerOverflow, span: tok.span },
                    )
                } else if brackets && c == '\t' {
                    &&& after.position() == q + 1
                    &&& tok.kind == TokenKind::Error
                    &&& after.errors_seen() == errs.push(
                        Error { kind: ErrorKind::LiteralTabCharacter, span: tok.span },
                    )
                } else if c == '\\' {
                    &&& after.position() == escape_end(t, q)
                    &&& escape_kind_ok(t, q, tok.kind)
                    &&& after.errors_seen() == with_error(errs, escape_error(t, q), tok.span)
                } else {
                    &&& after.position() == q + 1
                    &&& tok.kind == (TokenKind::Literal { char: c })
                    &&& after.errors_seen() == errs
                }
            }
        })
    }

    /// Reads the next token, or `None` at the end of the input.
    pub fn next_token(&mut self) -> (r: Option<Token<'src>>)
        requires
            old(self).wf(),
        ensures
            old(self).step(final(self), r),
    {
        proof {
            lemma_skip_end(self.chars@, self.pos as int, self.is_in_brackets);
        }
        self.skip_whitespace();
        let span_start = self.offset;
        let ghost q = self.pos as int;
        let ghost t = self.chars@;
        let peeked = match self.peek() {
            Some(c) => c,
            None => {
                return None;
            },
        };
        proof {
            lemma_run_end(t, q, t.len() - q, digit_pred());
            lemma_run_end(t, q + 1, t.len() - (q + 1), ident_pred());
            if q + 1 < t.len() && is_hex_escape(t[q + 1]) {
                lemma_run_end(t, q + 2, hex_width(t[q + 1]), hex_pred());
            }
        }
        let kind = if peeked == '|' {
            self.consume();
            TokenKind::Pipe
        } else if peeked == '*' {
            self.consume();
            TokenKind::Star
        } else if peeked == '+' {
            self.consume();
            TokenKind::Plus
        } else if peeked == '?' {
            self.consume();
            TokenKind::QMark
        } else if peeked == '{' {
            self.consume();
            self.is_in_braces = true;
            TokenKind::OpenBrace
        } else if peeked == '}' {
            self.consume();
            self.is_in_braces = false;
            TokenKind::ClosedBrace
        } else if peeked == '[' {
            self.consume();
            self.is_in_brackets = true;
            TokenKind::OpenBrack
        } else if peeked == ']' {
            self.consume();
            self.is_in_brackets = false;
            TokenKind::ClosedBrack
        } else if peeked == '(' {
            self.consume();
            TokenKind::OpenParen
        } else if peeked == ')' {
            self.consume();
            TokenKind::ClosedParen
        } else if peeked == '$' {
            self.consume();
            TokenKind::Dollar
        } else if peeked == '^' && self.is_in_brackets {
            self.consume();
            TokenKind::Caret
        } else if peeked == '-' && self.is_in_brackets {
            self.consume();
            TokenKind::Hyphen
        } else if peeked == ',' && self.is_in_braces {
            self.consume();
            TokenKind::Comma
        } else if peeked == '=' && !self.is_expecting_expr {
            self.consume();
            self.is_expecting_expr = true;
            TokenKind::Equals
        } else if peeked == '\n' {
            self.consume();
            self.is_expecting_expr = false;
            TokenKind::Newline
        } else if peeked == '.' {
            self.consume();
            TokenKind::Period
        } else if (!self.is_expecting_expr && (is_ascii_letter(peeked) || peeked == '_')) || (
        self.is_in_braces && is_ascii_letter(peeked)) {
            let name = self.consume_identifier();
            TokenKind::Identifier { name }
        } else if self.is_in_braces && is_digit(peeked) {
            match self.consume_number() {
                Some(num) => TokenKind::Number { num },
                None => TokenKind::Error,
            }
        } else if peeked == '\t' && self.is_in_brackets {
            self.consume();
            let span = Span { start: span_start, end: self.offset };
            self.errors.push(Error { kind: ErrorKind::LiteralTabCharacter, span });
            TokenKind::Error
        } else if peeked == '\\' {
            return Some(self.tokenize_escape());
        } else {
            self.consume();
            TokenKind::Literal { char: peeked }
        };
        Some(Token { kind, span: Span { start: span_start, end: self.offset } })
    }
}

impl<'src> Lexer<'src> {
    /// Whether `states` is a run of `next_token` from this lexer that gives
    /// `tokens` one by one and then `None`, ending with the error list `errors`.
    pub open spec fn runs_to(
        &self,
        states: Seq<Self>,
        tokens: Seq<Token<'src>>,
        errors: Seq<Error>,
    ) -> bool {
        &&& states.len() == tokens.len() + 2
        &&& states[0] == *self
        &&& forall|i: int| 0 <= i < tokens.len() ==> #[trigger] states[i].step(&states[i + 1], Some(tokens[i]))
        &&& states[tokens.len() as int].step(&states[tokens.len() + 1int], None)
        &&& errors == states[tokens.len() + 1int].errors_seen()
    }

    /// Reads all tokens to the end of the input; gives them with every error found.
    /// The result is exactly what calls of `next_token` give until it gives `None`.
    /// Tokens come in source order, each over a nonempty byte range of the source.
    pub fn lex(self) -> (r: (Vec<Token<'src>>, Vec<Error>))
        requires
            self.wf(),
        ensures
            exists|states: Seq<Self>| #[trigger] self.runs_to(states, r.0@, r.1@),
            self.errors_seen().len() <= r.1@.len(),
            r.1@.take(self.errors_seen().len() as int) == self.errors_seen(),
            forall|i: int|
                0 <= i < r.0@.len() ==> (#[trigger] r.0@[i]).span.start < r.0@[i].span.end
                    <= bytes_len(self.text()),
            forall|i: int|
                0 <= i < r.0@.len() - 1 ==> (#[trigger] r.0@[i]).span.end <= r.0@[i + 1].span.start,
    {
        let ghost start = self;
        let mut lexer = self;
        let mut tokens: Vec<Token<'src>> = Vec::new();
        let ghost mut states: Seq<Self> = seq![self];
        let ghost mut fin_states: Seq<Self> = seq![];
        loop
            invariant
                states.len() == tokens@.len() + 1,
                states[0] == start,
                states.last() == lexer,
                forall|i: int|
                    0 <= i < tokens@.len() ==> #[trigger] states[i].step(&states[i + 1], Some(tokens@[i])),
                lexer.wf(),
                start == self,
                start.wf(),
                start.same_text(&lexer),
                start.errors@.len() <= lexer.errors@.len(),
                lexer.errors@.take(start.errors@.len() as int) == start.errors@,
                forall|i: int|
                    0 <= i < tokens@.len() ==> (#[trigger] tokens@[i]).span.start < tokens@[i].span.end
                        <= lexer.offset,
                forall|i: int|
                    0 <= i < tokens@.len() - 1 ==> (#[trigger] tokens@[i]).span.end
                        <= tokens@[i + 1].span.start,
            decreases lexer.chars@.len() - lexer.pos,
        {
            let ghost before = lexer;
            proof {
                lemma_skip_end(lexer.chars@, lexer.pos as int, lexer.is_in_brackets);
            }
            match lexer.next_token() {
                Some(tok) => {
                    proof {
                        let t = lexer.chars@;
                        let q = skip_end(t, before.pos as int, before.is_in_brackets);
                        lemma_bytes_len_prefix(t, before.pos as int, q);
                        lemma_bytes_len_prefix(t, q + 1, lexer.pos as int);
                        lemma_byte_offset_step(t, q);
                        lemma_byte_offset_bounded(t, lexer.pos as int);
                        assert(utf8_len(t[q]) >= 1);
                        assert(lexer.errors@.take(start.errors@.len() as int) =~= start.errors@);
                    }
                    tokens.push(tok);
                    proof {
                        let prev = states;
                        states = states.push(lexer);
                        assert forall|i: int|
                            0 <= i < tokens@.len() implies #[trigger] states[i].step(
                            &states[i + 1],
                            Some(tokens@[i]),
                        ) by {
                            if i < tokens@.len() - 1 {
                                assert(states[i] == prev[i] && states[i + 1] == prev[i + 1]);
                            }
                        }
                    }
                },
                None => {
                    proof {
                        lemma_byte_offset_bounded(lexer.chars@, lexer.pos as int);
                        lemma_bytes_len_prefix(lexer.chars@, before.pos as int, lexer.pos as int);
                        assert(lexer.offset <= bytes_len(self.text()));
                        assert forall|i: int| 0 <= i < tokens@.len() implies (#[trigger] tokens@[i]).span.end
                            <= bytes_len(self.text()) by {}
                        fin_states = states.push(lexer);
                        let fin = fin_states;
                        assert(fin[tokens@.len() as int] == before);
                        assert forall|i: int|
                            0 <= i < tokens@.len() implies #[trigger] fin[i].step(
                            &fin[i + 1],
                            Some(tokens@[i]),
                        ) by {
                            assert(fin[i] == states[i] && fin[i + 1] == states[i + 1]);
                        }
                        assert(start.runs_to(fin, tokens@, lexer.errors@));
                    }
                    let errors = lexer.errors;
                    let result = (tokens, errors);
                    assert(start.runs_to(fin_states, result.0@, result.1@));
                    return result;
                },
            }
        }
    }
}

/// A backslash before any escapable punctuation character gives one literal
/// token of that character, two characters long, and no error.
pub proof fn lemma_escaped_punctuation<'a>(t: Seq<char>, b: int, k: TokenKind<'a>)
    requires
        0 <= b,
        b + 1 < t.len(),
        t[b] == '\\',
        spec_is_escaped_literal(t[b + 1]),
    ensures
        escape_error(t, b).is_none(),
        escape_end(t, b) == b + 2,
        escape_kind_ok(t, b, k) <==> k == (TokenKind::Literal { char: t[b + 1] }),
{
}

/// `-` and `^` are symbols only inside a character class; elsewhere each is a
/// literal character, whatever the other flags.
pub proof fn lemma_class_symbols_context(c: char, in_braces: bool, in_brackets: bool, expecting_expr: bool)
    requires
        c == '-' || c == '^',
    ensures
        in_brackets ==> punct_kind::<'static>(c, in_braces, in_brackets, expecting_expr) == Some(
            if c == '-' {
                TokenKind::<'static>::Hyphen
            } else {
                TokenKind::<'static>::Caret
            },
        ),
        !in_brackets ==> {
            &&& punct_kind::<'static>(c, in_braces, in_brackets, expecting_expr).is_none()
            &&& !starts_identifier(c, in_braces, expecting_expr)
            &&& !spec_is_digit(c)
            &&& c != '\t'
            &&& c != '\\'
        },
{
}

/// Inside a character class a tab reaches the tab rule of `next_token`, which
/// gives an `Error` token and a `LiteralTabCharacter` error: no earlier rule takes it.
pub proof fn lemma_tab_in_class_is_error(in_braces: bool, expecting_expr: bool)
    ensures
        punct_kind::<'static>('\t', in_braces, true, expecting_expr).is_none(),
        !starts_identifier('\t', in_braces, expecting_expr),
        !spec_is_digit('\t'),
{
}

/// A tab separates tokens outside a character class.
pub proof fn lemma_tab_skipped_outside_class(t: Seq<char>, i: int)
    requires
        0 <= i < t.len(),
        t[i] == '\t',
    ensures
        skip_end(t, i, false) > i,
        skip_end(t, i, true) == i,
{
    assert(skippable('\t'));
    lemma_skip_end(t, i + 1, false);
    assert(skip_end(t, i, false) == skip_end(t, i + 1, false));
}

} // verus!

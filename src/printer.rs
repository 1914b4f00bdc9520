use vstd::prelude::*;

use crate::ast::{ASTNode, CharClassPart};
use crate::chars::{hex_digit, hex_value, is_scalar, spec_is_digit};
use crate::lexer::{
    escape_end, escape_error, escape_kind_ok, hex_end, hex_escape_value, hex_pred, hex_width,
    lemma_run_end, pow16, punct_kind, run_end, starts_identifier,
};
use crate::regex::{is_escaped_literal, spec_is_escaped_literal};
use crate::token::TokenKind;

verus! {

pub open spec fn plain_char(c: char) -> bool {
    ('a' <= c && c <= 'z') || ('A' <= c && c <= 'Z') || ('0' <= c && c <= '9') || c == '_'
}

pub open spec fn digit_char(d: nat) -> char {
    if d == 0 {
        '0'
    } else if d == 1 {
        '1'
    } else if d == 2 {
        '2'
    } else if d == 3 {
        '3'
    } else if d == 4 {
        '4'
    } else if d == 5 {
        '5'
    } else if d == 6 {
        '6'
    } else if d == 7 {
        '7'
    } else if d == 8 {
        '8'
    } else if d == 9 {
        '9'
    } else if d == 10 {
        'A'
    } else if d == 11 {
        'B'
    } else if d == 12 {
        'C'
    } else if d == 13 {
        'D'
    } else if d == 14 {
        'E'
    } else {
        'F'
    }
}

/// The decimal digits of `n`, most significant first, with no leading zero.
pub open spec fn decimal_text(n: nat) -> Seq<char>
    decreases n,
{
    if n < 10 {
        seq![digit_char(n)]
    } else {
        decimal_text(n / 10) + seq![digit_char(n % 10)]
    }
}

/// The last `k` hex digits of `v`, most significant first.
pub open spec fn hex_text(v: nat, k: nat) -> Seq<char>
    decreases k,
{
    if k == 0 {
        Seq::empty()
    } else {
        hex_text(v / 16, (k - 1) as nat) + seq![digit_char(v % 16)]
    }
}

/// How a literal character is written so that it reads back as itself:
/// letters, digits and `_` as they are, escapable punctuation after a
/// backslash, and everything else as an eight-digit hex escape.
pub open spec fn literal_text(c: char) -> Seq<char> {
    if plain_char(c) {
        seq![c]
    } else if spec_is_escaped_literal(c) {
        seq!['\\', c]
    } else {
        seq!['\\', 'U'] + hex_text(c as nat, 8)
    }
}

pub open spec fn part_text(p: CharClassPart) -> Seq<char> {
    match p {
        CharClassPart::Literal { char } => literal_text(char),
        CharClassPart::Range { min, max } => literal_text(min) + seq!['-'] + literal_text(max),
    }
}

pub open spec fn parts_text(parts: Seq<CharClassPart>) -> Seq<char>
    decreases parts.len(),
{
    if parts.len() == 0 {
        Seq::empty()
    } else {
        parts_text(parts.drop_last()) + part_text(parts.last())
    }
}

/// The text of a pattern in the rule language. Binary nodes are written
/// without parentheses, as the parser groups them; an `Error` node is empty.
pub open spec fn pattern_text(n: ASTNode) -> Seq<char>
    decreases n,
{
    match n {
        ASTNode::Literal { char } => literal_text(char),
        ASTNode::Reference { name, .. } => seq!['{'] + name@ + seq!['}'],
        ASTNode::Alternation { left, right } => pattern_text(*left) + seq!['|'] + pattern_text(
            *right,
        ),
        ASTNode::Concat { left, right } => pattern_text(*left) + pattern_text(*right),
        ASTNode::Repeat0 { inner } => pattern_text(*inner) + seq!['*'],
        ASTNode::Repeat1 { inner } => pattern_text(*inner) + seq!['+'],
        ASTNode::Optional { inner } => pattern_text(*inner) + seq!['?'],
        ASTNode::Group { inner, .. } => seq!['('] + pattern_text(*inner) + seq![')'],
        ASTNode::Range { inner, min, max } => pattern_text(*inner) + seq!['{'] + decimal_text(
            min as nat,
        ) + match max {
            None => seq![',', '}'],
            Some(m) => if m == min {
                seq!['}']
            } else {
                seq![','] + decimal_text(m as nat) + seq!['}']
            },
        },
        ASTNode::CharClass { negated, parts } => seq!['['] + (if negated {
            seq!['^']
        } else {
            Seq::empty()
        }) + parts_text(parts@) + seq![']'],
        ASTNode::AnyChar => seq!['.'],
        ASTNode::Error => Seq::empty(),
    }
}

fn push_digit(d: u32, out: &mut Vec<char>)
    requires
        d < 16,
    ensures
        final(out)@ == old(out)@.push(digit_char(d as nat)),
{
    let c = if d == 0 {
        '0'
    } else if d == 1 {
        '1'
    } else if d == 2 {
        '2'
    } else if d == 3 {
        '3'
    } else if d == 4 {
        '4'
    } else if d == 5 {
        '5'
    } else if d == 6 {
        '6'
    } else if d == 7 {
        '7'
    } else if d == 8 {
        '8'
    } else if d == 9 {
        '9'
    } else if d == 10 {
        'A'
    } else if d == 11 {
        'B'
    } else if d == 12 {
        'C'
    } else if d == 13 {
        'D'
    } else if d == 14 {
        'E'
    } else {
        'F'
    };
    out.push(c);
}

fn push_decimal(n: usize, out: &mut Vec<char>)
    ensures
        final(out)@ == old(out)@ + decimal_text(n as nat),
    decreases n,
{
    if n >= 10 {
        push_decimal(n / 10, out);
    }
    push_digit((n % 10) as u32, out);
    assert(final(out)@ =~= old(out)@ + decimal_text(n as nat));
}

fn push_hex(v: u32, k: u32, out: &mut Vec<char>)
    ensures
        final(out)@ == old(out)@ + hex_text(v as nat, k as nat),
    decreases k,
{
    if k > 0 {
        push_hex(v / 16, k - 1, out);
        push_digit(v % 16, out);
    }
    assert(final(out)@ =~= old(out)@ + hex_text(v as nat, k as nat));
}

fn push_literal(c: char, out: &mut Vec<char>)
    ensures
        final(out)@ == old(out)@ + literal_text(c),
{
    if ('a' <= c && c <= 'z') || ('A' <= c && c <= 'Z') || ('0' <= c && c <= '9') || c == '_' {
        out.push(c);
    } else if is_escaped_literal(c) {
        out.push('\\');
        out.push(c);
    } else {
        out.push('\\');
        out.push('U');
        push_hex(c as u32, 8, out);
    }
    assert(final(out)@ =~= old(out)@ + literal_text(c));
}

fn push_name(name: &str, out: &mut Vec<char>)
    ensures
        final(out)@ == old(out)@ + name@,
{
    let n = name.unicode_len();
    let mut i: usize = 0;
    while i < n
        invariant
            n == name@.len(),
            i <= n,
            out@ == old(out)@ + name@.take(i as int),
        decreases n - i,
    {
        out.push(name.get_char(i));
        i = i + 1;
        assert(out@ =~= old(out)@ + name@.take(i as int));
    }
    assert(name@.take(n as int) =~= name@);
}

/// Writes `n` as pattern text after what `out` holds.
pub fn to_pattern(n: &ASTNode, out: &mut Vec<char>)
    ensures
        final(out)@ == old(out)@ + pattern_text(*n),
    decreases n,
{
    let ghost start = out@;
    match n {
        ASTNode::Literal { char } => push_literal(*char, out),
        ASTNode::Reference { name, .. } => {
            out.push('{');
            push_name(name, out);
            out.push('}');
        },
        ASTNode::Alternation { left, right } => {
            to_pattern(left, out);
            out.push('|');
            to_pattern(right, out);
        },
        ASTNode::Concat { left, right } => {
            to_pattern(left, out);
            to_pattern(right, out);
        },
        ASTNode::Repeat0 { inner } => {
            to_pattern(inner, out);
            out.push('*');
        },
        ASTNode::Repeat1 { inner } => {
            to_pattern(inner, out);
            out.push('+');
        },
        ASTNode::Optional { inner } => {
            to_pattern(inner, out);
            out.push('?');
        },
        ASTNode::Group { inner, .. } => {
            out.push('(');
            to_pattern(inner, out);
            out.push(')');
        },
        ASTNode::Range { inner, min, max } => {
            to_pattern(inner, out);
            out.push('{');
            push_decimal(*min, out);
            match max {
                None => {
                    out.push(',');
                    out.push('}');
                },
                Some(m) => {
                    if *m != *min {
                        out.push(',');
                        push_decimal(*m, out);
                    }
                    out.push('}');
                },
            }
        },
        ASTNode::CharClass { negated, parts } => {
            out.push('[');
            if *negated {
                out.push('^');
            }
            let ghost before_parts = out@;
            let mut i: usize = 0;
            while i < parts.len()
                invariant
                    i <= parts@.len(),
                    out@ == before_parts + parts_text(parts@.take(i as int)),
                decreases parts@.len() - i,
            {
                match parts[i] {
                    CharClassPart::Literal { char } => push_literal(char, out),
                    CharClassPart::Range { min, max } => {
                        push_literal(min, out);
                        out.push('-');
                        push_literal(max, out);
                    },
                }
                proof {
                    assert(parts@.take(i + 1).drop_last() =~= parts@.take(i as int));
                }
                i = i + 1;
                assert(out@ =~= before_parts + parts_text(parts@.take(i as int)));
            }
            assert(parts@.take(parts@.len() as int) =~= parts@);
            out.push(']');
        },
        ASTNode::AnyChar => out.push('.'),
        ASTNode::Error => {},
    }
    assert(out@ =~= start + pattern_text(*n));
}

proof fn lemma_hex_text(v: nat, k: nat)
    ensures
        hex_text(v, k).len() == k,
        forall|i: int| 0 <= i < k ==> (#[trigger] hex_text(v, k)[i]) == digit_char(
            hex_text_digit(v, k, i),
        ) && hex_text_digit(v, k, i) < 16,
        hex_value(hex_text(v, k)) == v % pow16(k),
    decreases k,
{
    if k > 0 {
        let k1 = (k - 1) as nat;
        lemma_hex_text(v / 16, k1);
        let h = hex_text(v, k);
        assert(h.drop_last() =~= hex_text(v / 16, k1));
        assert(hex_digit(digit_char(v % 16)) == Some(v % 16));
        assert forall|i: int| 0 <= i < k implies (#[trigger] hex_text(v, k)[i]) == digit_char(
            hex_text_digit(v, k, i),
        ) && hex_text_digit(v, k, i) < 16 by {
            if i < k1 {
                assert(hex_text(v, k)[i] == hex_text(v / 16, k1)[i]);
            }
        }
        lemma_pow16_pos(k1);
        assert((16 * ((v / 16) % pow16(k1)) + v % 16) == v % (16 * pow16(k1))) by (nonlinear_arith)
            requires
                pow16(k1) > 0,
        {
            vstd::arithmetic::div_mod::lemma_breakdown(v as int, 16, pow16(k1) as int);
        }
    }
}

proof fn lemma_pow16_pos(k: nat)
    ensures
        pow16(k) > 0,
    decreases k,
{
    if k > 0 {
        lemma_pow16_pos((k - 1) as nat);
    }
}

/// The digit that `hex_text(v, k)` holds at index `i`.
pub open spec fn hex_text_digit(v: nat, k: nat, i: int) -> nat
    decreases k,
{
    if k == 0 {
        0
    } else if i == k - 1 {
        v % 16
    } else {
        hex_text_digit(v / 16, (k - 1) as nat, i)
    }
}

/// The text that the printer writes for a literal character reads back, inside
/// a pattern and outside braces and brackets, as one literal token of that
/// character that spans exactly that text, and reports no error.
pub proof fn lemma_literal_reads_back(t: Seq<char>, q: int, c: char)
    requires
        0 <= q,
        q + literal_text(c).len() <= t.len(),
        t.subrange(q, q + literal_text(c).len()) == literal_text(c),
    ensures
        punct_kind::<'static>(t[q], false, false, true).is_none(),
        !starts_identifier(t[q], false, true),
        t[q] != '\\' ==> t[q] == c && literal_text(c).len() == 1,
        t[q] == '\\' ==> {
            &&& escape_error(t, q).is_none()
            &&& escape_end(t, q) == q + literal_text(c).len()
            &&& escape_kind_ok(t, q, TokenKind::Literal { char: c })
        },
{
    let n = literal_text(c).len() as int;
    assert(t[q] == literal_text(c)[0]);
    if !plain_char(c) && !spec_is_escaped_literal(c) {
        let v = c as nat;
        lemma_hex_text(v, 8);
        let lt = literal_text(c);
        assert(lt == seq!['\\', 'U'] + hex_text(v, 8));
        assert(lt.len() == 10);
        assert(t[q + 1] == t.subrange(q, q + n)[1]);
        assert(t[q + 1] == 'U');
        assert forall|i: int| 0 <= i < 8 implies #[trigger] t[q + 2 + i] == hex_text(v, 8)[i] by {
            assert(t[q + 2 + i] == t.subrange(q, q + n)[2 + i]);
            assert(lt[2 + i] == hex_text(v, 8)[i]);
        }
        assert forall|i: int| q + 2 <= i < q + 10 implies hex_pred()(#[trigger] t[i]) by {
            assert(t[q + 2 + (i - q - 2)] == hex_text(v, 8)[i - q - 2]);
            let d = hex_text_digit(v, 8, i - q - 2);
            assert(hex_digit(digit_char(d)).is_some());
        }
        lemma_run_end_full(t, q + 2, 8);
        assert(hex_end(t, q) == q + 10);
        assert forall|j: int| 0 <= j < 8 implies #[trigger] t.subrange(q + 2, q + 10)[j] == hex_text(
            v,
            8,
        )[j] by {
            assert(t[q + 2 + j] == hex_text(v, 8)[j]);
        }
        assert(t.subrange(q + 2, q + 10) =~= hex_text(v, 8));
        lemma_pow16_value(8);
        assert((c as u32) < 0x110000);
        assert(v % pow16(8) == v);
        assert(is_scalar(hex_escape_value(t, q) as u32));
    } else if spec_is_escaped_literal(c) {
        assert(t[q + 1] == literal_text(c)[1]);
    }
}

proof fn lemma_pow16_value(k: nat)
    requires
        k == 8,
    ensures
        pow16(k) == 4294967296,
{
    reveal_with_fuel(pow16, 9);
}

proof fn lemma_run_end_full(t: Seq<char>, i: int, cap: int)
    requires
        0 <= i,
        0 <= cap,
        i + cap <= t.len(),
        forall|j: int| i <= j < i + cap ==> hex_pred()(#[trigger] t[j]),
    ensures
        run_end(t, i, cap, hex_pred()) == i + cap,
    decreases cap,
{
    if cap > 0 {
        lemma_run_end_full(t, i + 1, cap - 1);
    }
}

} // verus!

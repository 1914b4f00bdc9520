use lexx::analyzer::{identical_rule_patterns, unnecessary_parentheses, unused_helper_rules};
use lexx::ast::{ASTNode, CharClassPart, Rule, RuleKind};
use lexx::error::{Error, ErrorKind};
use lexx::lexer::Lexer;
use lexx::parser::Parser;
use lexx::span::Span;
use lexx::token::Token;
use lexx::warning::{Warning, WarningKind};

fn tokens(source: &str) -> Vec<Token<'_>> {
    Lexer::new(source).lex().0
}

fn parse<'a>(tokens: &'a [Token<'a>], kinds: &[RuleKind]) -> (Vec<Rule<'a>>, Vec<Error>, Vec<Warning<'a>>) {
    let mut parser = Parser::new(tokens);
    let mut rules = Vec::new();
    let mut i = 0;
    while let Some(rule) = parser.next_rule(kinds[i.min(kinds.len() - 1)]) {
        rules.push(rule);
        i += 1;
    }
    (rules, parser.errors().clone(), parser.warnings().clone())
}

fn lit(c: char) -> Box<ASTNode<'static>> {
    Box::new(ASTNode::Literal { char: c })
}

#[test]
fn alternation_and_concat_group_left() {
    let toks = tokens("x = ab|c|d");
    let (rules, errors, _) = parse(&toks, &[RuleKind::Token]);
    assert!(errors.is_empty());
    assert_eq!(rules.len(), 1);
    assert_eq!(rules[0].name, "x");
    assert_eq!(rules[0].name_span, Span { start: 0, end: 1 });
    let expected = ASTNode::Alternation {
        left: Box::new(ASTNode::Alternation {
            left: Box::new(ASTNode::Concat { left: lit('a'), right: lit('b') }),
            right: lit('c'),
        }),
        right: lit('d'),
    };
    assert_eq!(rules[0].pattern, expected);
}

#[test]
fn postfix_operators_and_bounds() {
    let toks = tokens("x = a*b+c?d{2}e{3,}f{1,4}");
    let (rules, errors, warnings) = parse(&toks, &[RuleKind::Token]);
    assert!(errors.is_empty());
    assert!(warnings.is_empty());
    let expected = ASTNode::Concat {
        left: Box::new(ASTNode::Concat {
            left: Box::new(ASTNode::Concat {
                left: Box::new(ASTNode::Concat {
                    left: Box::new(ASTNode::Concat {
                        left: Box::new(ASTNode::Repeat0 { inner: lit('a') }),
                        right: Box::new(ASTNode::Repeat1 { inner: lit('b') }),
                    }),
                    right: Box::new(ASTNode::Optional { inner: lit('c') }),
                }),
                right: Box::new(ASTNode::Range { inner: lit('d'), min: 2, max: Some(2) }),
            }),
            right: Box::new(ASTNode::Range { inner: lit('e'), min: 3, max: None }),
        }),
        right: Box::new(ASTNode::Range { inner: lit('f'), min: 1, max: Some(4) }),
    };
    assert_eq!(rules[0].pattern, expected);
}

#[test]
fn classes_and_any_char() {
    let toks = tokens("x = [^a-z_\\d].");
    let (rules, errors, _) = parse(&toks, &[RuleKind::Token]);
    assert!(errors.is_empty());
    let expected = ASTNode::Concat {
        left: Box::new(ASTNode::CharClass {
            negated: true,
            parts: vec![
                CharClassPart::Range { min: 'a', max: 'z' },
                CharClassPart::Literal { char: '_' },
                CharClassPart::Range { min: '0', max: '9' },
            ],
        }),
        right: Box::new(ASTNode::AnyChar),
    };
    assert_eq!(rules[0].pattern, expected);
}

#[test]
fn reference_in_braces() {
    let toks = tokens("x = {digit}+");
    let (rules, errors, _) = parse(&toks, &[RuleKind::Token]);
    assert!(errors.is_empty());
    let expected = ASTNode::Repeat1 {
        inner: Box::new(ASTNode::Reference { name: "digit", span: Span { start: 4, end: 11 } }),
    };
    assert_eq!(rules[0].pattern, expected);
}

#[test]
fn empty_group_is_error() {
    let toks = tokens("x = ()");
    let (rules, errors, _) = parse(&toks, &[RuleKind::Token]);
    assert_eq!(rules[0].pattern, ASTNode::Error);
    assert_eq!(errors[0].kind, ErrorKind::EmptyPattern);
}

#[test]
fn reversed_bounds_are_error() {
    let toks = tokens("x = a{5,3}");
    let (rules, errors, _) = parse(&toks, &[RuleKind::Token]);
    assert_eq!(rules[0].pattern, ASTNode::Error);
    assert_eq!(
        errors,
        vec![Error { kind: ErrorKind::InvalidRangeBounds { min: 5, max: 3 }, span: Span { start: 5, end: 10 } }]
    );
}

#[test]
fn reversed_class_range_is_error() {
    let toks = tokens("x = [z-a]");
    let (_, errors, _) = parse(&toks, &[RuleKind::Token]);
    assert_eq!(errors[0].kind, ErrorKind::InvalidCharRange { first: 'z', last: 'a' });
}

#[test]
fn unterminated_group_recovers() {
    let toks = tokens("x = (a\ny = b");
    let (rules, errors, _) = parse(&toks, &[RuleKind::Token]);
    assert_eq!(rules.len(), 2);
    assert_eq!(rules[0].pattern, ASTNode::Error);
    assert_eq!(errors[0].kind, ErrorKind::UnexpectedEOF);
    assert_eq!(rules[1].name, "y");
    assert_eq!(rules[1].pattern, ASTNode::Literal { char: 'b' });
}

#[test]
fn missing_pattern_is_error() {
    let toks = tokens("x =\ny = b");
    let (rules, errors, _) = parse(&toks, &[RuleKind::Token]);
    assert_eq!(rules.len(), 2);
    assert_eq!(errors[0].kind, ErrorKind::EmptyPattern);
}

#[test]
fn identical_patterns_are_reported() {
    let toks = tokens("x = a|a\ny = a|a\nz = a(a)\nw = a(a)");
    let (rules, errors, _) = parse(&toks, &[RuleKind::Token]);
    assert!(errors.is_empty());
    let warnings = identical_rule_patterns(&rules);
    assert_eq!(warnings.len(), 2);
    assert_eq!(
        warnings[0].kind,
        WarningKind::IdenticalRulePatterns {
            name1: "x",
            span1: Span { start: 0, end: 1 },
            name2: "y",
            span2: Span { start: 8, end: 9 },
        }
    );
    assert!(matches!(warnings[1].kind, WarningKind::IdenticalRulePatterns { name1: "z", name2: "w", .. }));
}

#[test]
fn different_patterns_are_not_reported() {
    let toks = tokens("x = a|b\ny = a|c");
    let (rules, _, _) = parse(&toks, &[RuleKind::Token]);
    assert!(identical_rule_patterns(&rules).is_empty());
}

#[test]
fn redundant_parentheses_are_reported() {
    let toks = tokens("x = (a)");
    let (rules, _, _) = parse(&toks, &[RuleKind::Token]);
    let warnings = unnecessary_parentheses(&rules);
    assert_eq!(
        warnings,
        vec![Warning { kind: WarningKind::UnnecessaryParanthesis, span: Span { start: 4, end: 7 } }]
    );
}

#[test]
fn needed_parentheses_are_not_reported() {
    let toks = tokens("x = (a|b)c");
    let (rules, _, _) = parse(&toks, &[RuleKind::Token]);
    assert!(unnecessary_parentheses(&rules).is_empty());
}

#[test]
fn equal_bounds_are_reported() {
    let toks = tokens("x = a{3,3}");
    let (_, errors, warnings) = parse(&toks, &[RuleKind::Token]);
    assert!(errors.is_empty());
    assert_eq!(
        warnings,
        vec![Warning {
            kind: WarningKind::UnnecessaryRangeBoundary { value: 3 },
            span: Span { start: 5, end: 10 },
        }]
    );
}

#[test]
fn distinct_bounds_are_not_reported() {
    let toks = tokens("x = a{3,5}\ny = b{3}");
    let (_, _, warnings) = parse(&toks, &[RuleKind::Token]);
    assert!(warnings.is_empty());
}

#[test]
fn unused_helpers_are_reported() {
    let toks = tokens("t = {h1}\nh1 = {h2}\nh2 = b\nh3 = c\ns = {h4}\nh4 = d");
    let kinds = [
        RuleKind::Token,
        RuleKind::Helper,
        RuleKind::Helper,
        RuleKind::Helper,
        RuleKind::Skip,
        RuleKind::Helper,
    ];
    let (rules, errors, _) = parse(&toks, &kinds);
    assert!(errors.is_empty());
    assert_eq!(rules.len(), 6);
    let warnings = unused_helper_rules(&rules);
    assert_eq!(
        warnings,
        vec![Warning { kind: WarningKind::UnusedHelperRule, span: rules[3].name_span }]
    );
    assert_eq!(rules[3].name, "h3");
}

#[test]
fn helper_cycle_without_root_is_unused() {
    let toks = tokens("a = {b}\nb = {a}");
    let (rules, _, _) = parse(&toks, &[RuleKind::Helper]);
    assert_eq!(unused_helper_rules(&rules).len(), 2);
}

#[test]
fn negated_shorthand_inside_class() {
    let toks = tokens("x = [\\D]");
    let (rules, errors, _) = parse(&toks, &[RuleKind::Token]);
    assert!(errors.is_empty());
    let expected = ASTNode::CharClass {
        negated: false,
        parts: vec![
            CharClassPart::Range { min: '\0', max: '/' },
            CharClassPart::Range { min: ':', max: '\u{10FFFF}' },
        ],
    };
    assert_eq!(rules[0].pattern, expected);
}

#[test]
fn rule_line_always_yields_rule() {
    let toks = tokens("\n\nx = *\ny = b");
    let (rules, errors, _) = parse(&toks, &[RuleKind::Token]);
    assert_eq!(rules.len(), 2);
    assert_eq!(rules[0].name, "x");
    assert!(!errors.is_empty());
}

#[test]
fn broken_rules_recover() {
    let toks = tokens("x = ()\ny = (a\nz = b");
    let (rules, errors, _) = parse(&toks, &[RuleKind::Token]);
    assert_eq!(rules.len(), 3);
    assert_eq!(errors[0].kind, ErrorKind::EmptyPattern);
    assert_eq!(errors[1].kind, ErrorKind::UnexpectedEOF);
    assert_eq!(rules[2].pattern, ASTNode::Literal { char: 'b' });
}

#[test]
fn duplicate_pairs_each_reported_once() {
    let toks = tokens("x = a\ny = a\nz = a");
    let (rules, _, _) = parse(&toks, &[RuleKind::Token]);
    let warnings = identical_rule_patterns(&rules);
    assert_eq!(warnings.len(), 3);
    assert!(matches!(warnings[0].kind, WarningKind::IdenticalRulePatterns { name1: "x", name2: "y", .. }));
    assert!(matches!(warnings[1].kind, WarningKind::IdenticalRulePatterns { name1: "x", name2: "z", .. }));
    assert!(matches!(warnings[2].kind, WarningKind::IdenticalRulePatterns { name1: "y", name2: "z", .. }));
}

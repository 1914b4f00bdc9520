use lexx::ast::{same_pattern, ASTNode, RuleKind};
use lexx::lexer::Lexer;
use lexx::parser::Parser;
use lexx::printer::to_pattern;

fn printed(n: &ASTNode<'_>) -> String {
    let mut out = Vec::new();
    to_pattern(n, &mut out);
    out.into_iter().collect()
}

fn assert_round_trip(pattern: &str) {
    let source = format!("x = {}", pattern);
    let (tokens, lex_errors) = Lexer::new(&source).lex();
    assert!(lex_errors.is_empty(), "{:?}", lex_errors);
    let mut parser = Parser::new(&tokens);
    let rule = parser.next_rule(RuleKind::Token).unwrap();
    assert!(parser.errors().is_empty(), "{:?}", parser.errors());

    let text = printed(&rule.pattern);
    let again_source = format!("x = {}", text);
    let (again_tokens, again_errors) = Lexer::new(&again_source).lex();
    assert!(again_errors.is_empty(), "{:?}", again_errors);
    let mut again_parser = Parser::new(&again_tokens);
    let again = again_parser.next_rule(RuleKind::Token).unwrap();
    assert!(again_parser.errors().is_empty(), "{}: {:?}", text, again_parser.errors());
    assert!(same_pattern(&rule.pattern, &again.pattern), "{} -> {}", pattern, text);
}

#[test]
fn printed_patterns_read_back() {
    for pattern in [
        "ab|c|d",
        "(a|b)*c+d?",
        "[^a-z_\\d]x{2,5}y{3}z{4,}w{3,3}",
        "{digit}(\\.{digit}+)?",
        "\\x20\\t\\\\\\|=,",
        "\\D\\w[\\s-]",
        "é.((a))",
        "[a\\]^-]",
    ] {
        assert_round_trip(pattern);
    }
}

#[test]
fn printer_writes_expected_text() {
    let source = "x = (a|b)*[^0-9 ]{2,}x{3,3}\\$";
    let (tokens, _) = Lexer::new(source).lex();
    let mut parser = Parser::new(&tokens);
    let rule = parser.next_rule(RuleKind::Token).unwrap();
    assert_eq!(printed(&rule.pattern), "(a|b)*[^0-9\\U00000020]{2,}x{3}\\$");
}

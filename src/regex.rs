use vstd::prelude::*;

verus! {

/// Letters that name a shorthand character class after a backslash.
pub open spec fn spec_is_shorthand_class(c: char) -> bool {
    c == 'd' || c == 'D' || c == 'w' || c == 'W' || c == 's' || c == 'S'
}

/// Letters that name a control character after a backslash.
pub open spec fn spec_is_control_char(c: char) -> bool {
    c == 't' || c == 'r' || c == 'n' || c == '0'
}

/// The control character that a control escape letter stands for.
pub open spec fn spec_control_literal(c: char) -> Option<char> {
    if c == 't' {
        Some('\t')
    } else if c == 'r' {
        Some('\r')
    } else if c == 'n' {
        Some('\n')
    } else if c == '0' {
        Some('\0')
    } else {
        None
    }
}

/// Punctuation that a backslash turns into a literal of itself.
pub open spec fn spec_is_escaped_literal(c: char) -> bool {
    c == '\\' || c == '|' || c == '*' || c == '+' || c == '?' || c == '{' || c == '}'
        || c == '[' || c == ']' || c == '(' || c == ')' || c == '-' || c == '.' || c == '^'
        || c == '$'
}

pub fn is_shorthand_class(char: char) -> (r: bool)
    ensures
        r == spec_is_shorthand_class(char),
{
    char == 'd' || char == 'D' || char == 'w' || char == 'W' || char == 's' || char == 'S'
}

pub fn is_control_char(char: char) -> (r: bool)
    ensures
        r == spec_is_control_char(char),
{
    char == 't' || char == 'r' || char == 'n' || char == '0'
}

pub fn control_to_literal(char: char) -> (r: Option<char>)
    ensures
        r == spec_control_literal(char),
        r.is_some() == spec_is_control_char(char),
{
    match char {
        't' => Some('\t'),
        'r' => Some('\r'),
        'n' => Some('\n'),
        '0' => Some('\0'),
        _ => None,
    }
}

pub fn is_escaped_literal(char: char) -> (r: bool)
    ensures
        r == spec_is_escaped_literal(char),
{
    char == '\\' || char == '|' || char == '*' || char == '+' || char == '?' || char == '{'
        || char == '}' || char == '[' || char == ']' || char == '(' || char == ')' || char
        == '-' || char == '.' || char == '^' || char == '$'
}

} // verus!

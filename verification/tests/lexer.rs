use mathex::lexer::{Lexer, Token};

fn tokens(input: &str) -> Result<Vec<Token>, String> {
    Lexer::new(input).tokenize()
}

fn num(s: &str) -> Token {
    Token::Number(s.to_string())
}

fn id(s: &str) -> Token {
    Token::Identifier(s.to_string())
}

#[test]
fn lexes_operators_greedily() {
    assert_eq!(
        tokens("a==b<=c<<d>=e>>f!=g&&h||i**j").unwrap(),
        vec![
            id("a"), Token::Eq, id("b"), Token::LessEq, id("c"), Token::ShiftLeft, id("d"),
            Token::GreaterEq, id("e"), Token::ShiftRight, id("f"), Token::Neq, id("g"),
            Token::LogAnd, id("h"), Token::LogOr, id("i"), Token::Power, id("j"),
        ]
    );
    assert_eq!(
        tokens("= < > ! & | * + - / % ^ ( ) ,").unwrap(),
        vec![
            Token::Assign, Token::Less, Token::Greater, Token::LogNot, Token::BitAnd,
            Token::BitOr, Token::Star, Token::Plus, Token::Minus, Token::Slash,
            Token::Percent, Token::BitXor, Token::LParen, Token::RParen, Token::Comma,
        ]
    );
}

#[test]
fn keeps_numerals_as_text() {
    assert_eq!(tokens("42.5 .5 7.").unwrap(), vec![num("42.5"), num(".5"), num("7.")]);
}

#[test]
fn rejects_malformed_numerals() {
    assert_eq!(tokens("1.2.3").unwrap_err(), "Invalid number format: 1.2.3");
    assert_eq!(tokens("x + .").unwrap_err(), "Invalid number format: .");
}

#[test]
fn rejects_unexpected_characters_and_stops_there() {
    let mut lexer = Lexer::new("1 + @ 2");
    assert_eq!(lexer.tokenize().unwrap_err(), "Unexpected character: @");
    assert_eq!(tokens("x ~ y").unwrap_err(), "Unexpected character: ~");
}

#[test]
fn drops_blanks() {
    assert_eq!(tokens(" \t x \\ + 1 ").unwrap(), vec![id("x"), Token::Plus, num("1")]);
    assert_eq!(tokens("").unwrap(), vec![]);
}

#[test]
fn line_breaks_after_operands_become_commas() {
    assert_eq!(
        tokens("a=1\nb=2;c\r").unwrap(),
        vec![
            id("a"), Token::Assign, num("1"), Token::Comma, id("b"), Token::Assign, num("2"),
            Token::Comma, id("c"), Token::Comma,
        ]
    );
    assert_eq!(tokens("(x)\ny").unwrap(), vec![Token::LParen, id("x"), Token::RParen, Token::Comma, id("y")]);
}

#[test]
fn other_line_breaks_are_ignored() {
    assert_eq!(tokens("a=\n3").unwrap(), vec![id("a"), Token::Assign, num("3")]);
    assert_eq!(tokens("\n\n1\n\n\n2").unwrap(), vec![num("1"), Token::Comma, num("2")]);
}

#[test]
fn reads_identifiers() {
    assert_eq!(tokens("_x1 $y z#2 a$b").unwrap(), vec![id("_x1"), id("$y"), id("z#2"), id("a$b")]);
    assert_eq!(tokens("змінна + 变量 * λ").unwrap(), vec![id("змінна"), Token::Plus, id("变量"), Token::Star, id("λ")]);
}

#[test]
fn caret_is_a_single_xor_token() {
    assert_eq!(tokens("^x").unwrap(), vec![Token::BitXor, id("x")]);
}

#[test]
fn control_characters_are_errors() {
    assert_eq!(tokens("1 +\u{1}2").unwrap_err(), "Unexpected character: \u{1}");
    assert_eq!(tokens("\u{0}").unwrap_err(), "Unexpected character: \u{0}");
}

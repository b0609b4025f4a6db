use rust_calculator::lexer::{Symbol, Token};
use rust_calculator::parser::{Parser, Step, SyntaxError};

#[test]
fn next_moves_on_also_past_the_end() {
    let mut parser = Parser::new(vec![Token::Number(0, 1)]);
    assert_eq!(parser.next(), Some(Token::Number(0, 1)));
    assert_eq!(parser.pos, 1);
    assert_eq!(parser.next(), None);
    assert_eq!(parser.pos, 2);
    assert_eq!(parser.peek(), None);
}

#[test]
fn parse_expr_stops_before_a_closing_parenthesis() {
    let mut parser = Parser::new(vec![
        Token::Number(0, 1),
        Token::Symbol(Symbol::Plus),
        Token::Number(2, 3),
        Token::Symbol(Symbol::RParen),
    ]);
    let mut code = Vec::new();
    assert_eq!(parser.parse_expr(&mut code), Ok(()));
    assert_eq!(parser.pos, 3);
    assert_eq!(code, vec![Step::Push(0, 1), Step::Push(2, 3), Step::Add]);
}

#[test]
fn parse_primary_past_the_end_fails_and_moves_on() {
    let mut parser = Parser::new(vec![Token::Number(0, 1)]);
    parser.pos = 1;
    let mut code = Vec::new();
    assert_eq!(parser.parse_primary(&mut code), Err(SyntaxError::UnexpectedEnd));
    assert_eq!(parser.pos, 2);
    assert!(code.is_empty());
}

#[test]
fn parenthesised_expression_keeps_its_program() {
    // ( 1 + 2 ) * 3
    let mut parser = Parser::new(vec![
        Token::Symbol(Symbol::LParen),
        Token::Number(1, 2),
        Token::Symbol(Symbol::Plus),
        Token::Number(3, 4),
        Token::Symbol(Symbol::RParen),
        Token::Symbol(Symbol::Star),
        Token::Number(6, 7),
    ]);
    let mut code = Vec::new();
    assert_eq!(parser.parse_primary(&mut code), Ok(()));
    assert_eq!(parser.pos, 5);
    assert_eq!(code, vec![Step::Push(1, 2), Step::Push(3, 4), Step::Add]);
}

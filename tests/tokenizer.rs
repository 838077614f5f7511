use simple_tokenizer::{Token, Tokenizer};

#[test]
fn test_match_char_single_symbols() {
    let mut tokenizer = Tokenizer::new("");
    assert_eq!(tokenizer.match_char('+'), Token::Plus);
    assert_eq!(tokenizer.match_char('-'), Token::Minus);
    assert_eq!(tokenizer.match_char('*'), Token::Multiply);
    assert_eq!(tokenizer.match_char('/'), Token::Divide);
    assert_eq!(tokenizer.match_char('^'), Token::Power);
    assert_eq!(tokenizer.match_char('('), Token::LParen);
    assert_eq!(tokenizer.match_char(')'), Token::RParen);
}

#[test]
fn test_match_char_digit() {
    let mut tokenizer = Tokenizer::new("");
    assert_eq!(tokenizer.match_char('0'), Token::Number(0));
    assert_eq!(tokenizer.match_char('5'), Token::Number(5));
    assert_eq!(tokenizer.match_char('9'), Token::Number(9));
}

#[test]
fn test_match_char_unexpected() {
    let mut tokenizer = Tokenizer::new("");
    let token = tokenizer.match_char('x');
    match token {
        Token::Error(msg) => assert!(msg.contains("x")),
        _ => panic!("Expected error token"),
    }
}

#[test]
fn test_next_token_basic() {
    let mut tokenizer = Tokenizer::new(" + - * / ^ ( ) 1 2 3");
    assert_eq!(tokenizer.next_token(), Some(Token::Plus));
    assert_eq!(tokenizer.next_token(), Some(Token::Minus));
    assert_eq!(tokenizer.next_token(), Some(Token::Multiply));
    assert_eq!(tokenizer.next_token(), Some(Token::Divide));
    assert_eq!(tokenizer.next_token(), Some(Token::Power));
    assert_eq!(tokenizer.next_token(), Some(Token::LParen));
    assert_eq!(tokenizer.next_token(), Some(Token::RParen));
    assert_eq!(tokenizer.next_token(), Some(Token::Number(1)));
    assert_eq!(tokenizer.next_token(), Some(Token::Number(2)));
    assert_eq!(tokenizer.next_token(), Some(Token::Number(3)));
    assert_eq!(tokenizer.next_token(), None);
}

#[test]
fn test_iterator_trait() {
    let tokens: Vec<Token> = Tokenizer::new("1 + 2").collect();
    assert_eq!(tokens, vec![
        Token::Number(1),
        Token::Plus,
        Token::Number(2),
    ]);
}

#[test]
fn test_skip_whitespace() {
    let mut tokenizer = Tokenizer::new("   +   ");
    assert_eq!(tokenizer.next_token(), Some(Token::Plus));
    assert_eq!(tokenizer.next_token(), None);
}

#[test]
fn test_empty_input() {
    let mut tokenizer = Tokenizer::new("");
    assert_eq!(tokenizer.next_token(), None);
}

#[test]
fn test_match_char_single_digit() {
    let mut tokenizer = Tokenizer::new("1");
    tokenizer.chars_iter.next();
    let token = tokenizer.match_char('1');
    assert_eq!(token, Token::Number(1));
}

#[test]
fn test_match_char_multi_digit() {
    let mut tokenizer = Tokenizer::new("1234");
    tokenizer.chars_iter.next();
    let token = tokenizer.match_char('1');
    assert_eq!(token, Token::Number(1234));
}

#[test]
fn test_match_char_digit_followed_by_symbol() {
    let mut tokenizer = Tokenizer::new("12+");
    tokenizer.chars_iter.next();
    let token = tokenizer.match_char('1');
    assert_eq!(token, Token::Number(12));
    assert_eq!(tokenizer.chars_iter.peek(), Some(&'+'));
}

#[test]
fn test_match_char_digit_followed_by_whitespace() {
    let mut tokenizer = Tokenizer::new("456 ");
    tokenizer.chars_iter.next();
    let token = tokenizer.match_char('4');
    assert_eq!(token, Token::Number(456));
    assert_eq!(tokenizer.chars_iter.peek(), Some(&' '));
}

#[test]
fn test_match_char_symbol() {
    let mut tokenizer = Tokenizer::new("+");
    tokenizer.chars_iter.next();
    let token = tokenizer.match_char('+');
    assert_eq!(token, Token::Plus);
}

#[test]
fn test_match_char_unexpected2() {
    let mut tokenizer = Tokenizer::new("x");
    tokenizer.chars_iter.next();
    let token = tokenizer.match_char('x');
    match token {
        Token::Error(msg) => assert!(msg.contains("x")),
        _ => panic!("Expected error token"),
    }
}

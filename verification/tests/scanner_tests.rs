use tapec::scanner::{Token, TokenStream};

fn expect_id(word: &str, is_match: bool) {
    let output = Token::from_word(word);
    if is_match {
        assert_eq!(output.unwrap(), Token::ID(word.to_string()));
    } else if let Ok(token) = output {
        assert_ne!(token, Token::ID(word.to_string()));
    }
}

fn expect_num(word: &str, is_match: bool) {
    let output = Token::from_word(word);
    if is_match {
        assert_eq!(output.unwrap(), Token::NUM(word.to_string()));
    } else if let Ok(token) = output {
        assert_ne!(token, Token::NUM(word.to_string()));
    }
}

#[test]
fn test_id() {
    let testcases = [
        ("hello", true),
        ("hello123", true),
        ("_hello", true),
        ("HELLO", true),
        ("1hello", false),
    ];
    for (word, is_match) in testcases.into_iter() {
        expect_id(word, is_match);
    }
}

#[test]
fn test_num() {
    let testcases = [("123", true), ("123hello", false), ("hello123", false), ("_123", false)];
    for (word, is_match) in testcases.into_iter() {
        expect_num(word, is_match);
    }
}

#[test]
fn scanner_test_assign() {
    let word = "=";
    let expect = Token::ASSIGN;
    let output = Token::from_word(word).unwrap();
    assert_eq!(output, expect);
}

#[test]
fn test_eq() {
    let word = "==";
    let expect = Token::EQ;
    let output = Token::from_word(word).unwrap();
    assert_eq!(output, expect);
}

#[test]
fn test_excl() {
    let word = "!=";
    let expect = Token::NE;
    let output = Token::from_word(word).unwrap();
    assert_eq!(output, expect);
}

#[test]
fn test_lb() {
    let word = "{";
    let expect = Token::LB;
    let output = Token::from_word(word).unwrap();
    assert_eq!(output, expect);
}

#[test]
fn test_rb() {
    let word = "}";
    let expect = Token::RB;
    let output = Token::from_word(word).unwrap();
    assert_eq!(output, expect);
}

#[test]
fn test_and() {
    let word = "&&";
    let expect = Token::AND;
    let output = Token::from_word(word).unwrap();
    assert_eq!(output, expect);
}

#[test]
fn test_token_stream() {
    let program = "
            if hello != 123 && world == 456 {
                abc = 789
            }";
    let expect = vec![
        Token::ID("if".to_string()),
        Token::ID("hello".to_string()),
        Token::NE,
        Token::NUM("123".to_string()),
        Token::AND,
        Token::ID("world".to_string()),
        Token::EQ,
        Token::NUM("456".to_string()),
        Token::LB,
        Token::ID("abc".to_string()),
        Token::ASSIGN,
        Token::NUM("789".to_string()),
        Token::RB,
        Token::EOF,
    ];
    let output = TokenStream::tokenize(program).unwrap();
    assert_eq!(output.into_tokens(), expect);
}

#[test]
fn test_parens_scan() {
    assert_eq!(Token::from_word("(").unwrap(), Token::LP);
    assert_eq!(Token::from_word(")").unwrap(), Token::RP);
}

#[test]
fn test_invalid_word_is_lexical_error() {
    assert!(Token::from_word("$").is_err());
    assert!(TokenStream::tokenize("x = $").is_err());
}

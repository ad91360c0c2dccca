use tapec::parser::{Bool, Compare, Direction, Function, Num, Statement, Variable, AST};
use tapec::scanner::{Token, TokenStream};

fn id(s: &str) -> Token {
    Token::ID(s.to_string())
}

fn num(s: &str) -> Token {
    Token::NUM(s.to_string())
}

fn var(s: &str) -> Variable {
    Variable(s.to_string())
}

fn tokens_of(program: &str) -> Vec<Token> {
    TokenStream::tokenize(program).unwrap().into_tokens()
}

#[test]
fn test_parse_direction() {
    assert_eq!(
        Direction::from_token(&id("move_right")).unwrap(),
        Direction::Right
    );
    assert_eq!(
        Direction::from_token(&id("move_left")).unwrap(),
        Direction::Left
    );
    assert!(Direction::from_token(&id("abcd")).is_err());
}

#[test]
fn test_parse_variable() {
    assert_eq!(Variable::from_token(&id("hello")).unwrap(), var("hello"));
    assert!(Variable::from_token(&num("123")).is_err());
    for word in [
        "if",
        "else",
        "while",
        "next_cell",
        "prev_cell",
        "input",
        "output",
    ] {
        assert!(Variable::from_token(&id(word)).is_err());
    }
}

#[test]
fn test_parse_num() {
    assert_eq!(Num::from_token(&num("123")).unwrap(), Num(123));
    assert!(Num::from_token(&id("hello")).is_err());
}

#[test]
fn test_parse_compare() {
    assert_eq!(
        Compare::try_parse(&vec![id("hello"), Token::EQ, num("123")]).unwrap(),
        Compare::EQ(var("hello"), Num(123))
    );
    assert!(Compare::try_parse(&vec![num("123"), Token::EQ, id("hello")]).is_err());
    assert_eq!(
        Compare::try_parse(&vec![id("hello"), Token::NE, num("123")]).unwrap(),
        Compare::NE(var("hello"), Num(123))
    );
}

#[test]
fn test_parse_bool() {
    assert_eq!(
        Bool::try_parse(&vec![id("hello"), Token::EQ, num("123")]).unwrap(),
        Bool {
            compares: vec![Compare::EQ(var("hello"), Num(123))],
        }
    );
    assert_eq!(
        Bool::try_parse(&vec![id("hello"), Token::EQ, num("123"), Token::LB]).unwrap(),
        Bool {
            compares: vec![Compare::EQ(var("hello"), Num(123))],
        }
    );
    assert!(Bool::try_parse(&vec![id("hello"), Token::EQ, id("123")]).is_err());
    assert_eq!(
        Bool::try_parse(&vec![
            id("hello"),
            Token::EQ,
            num("123"),
            Token::AND,
            id("world"),
            Token::EQ,
            num("124"),
        ])
        .unwrap(),
        Bool {
            compares: vec![
                Compare::EQ(var("hello"), Num(123)),
                Compare::EQ(var("world"), Num(124)),
            ],
        }
    );
}

#[test]
fn test_parse_input() {
    assert_eq!(
        Statement::try_parse(&vec![id("input"), Token::LP, id("hello"), Token::RP]).unwrap(),
        Statement::Input(var("hello"))
    );
    assert!(Statement::try_parse(&vec![id("input"), Token::LP, num("123"), Token::RP]).is_err());
}

#[test]
fn test_parse_output() {
    assert_eq!(
        Statement::try_parse(&vec![id("output"), Token::LP, id("hello"), Token::RP]).unwrap(),
        Statement::Output(var("hello"))
    );
    assert!(Statement::try_parse(&vec![id("output"), Token::LP, num("123"), Token::RP]).is_err());
}

#[test]
fn test_parse_move_statement() {
    assert_eq!(
        Statement::try_parse(&vec![id("move_right")]).unwrap(),
        Statement::Move(Direction::Right)
    );
    assert_eq!(
        Statement::try_parse(&vec![id("move_left")]).unwrap(),
        Statement::Move(Direction::Left)
    );
    assert!(Statement::try_parse(&vec![id("abcd")]).is_err());
}

#[test]
fn test_parse_assign() {
    assert_eq!(
        Statement::try_parse(&vec![id("hello"), Token::ASSIGN, num("123")]).unwrap(),
        Statement::Assign(var("hello"), Num(123))
    );
    assert!(Statement::try_parse(&vec![num("123"), Token::ASSIGN, id("hello")]).is_err());
    assert!(Statement::try_parse(&vec![id("Hello"), Token::ASSIGN, id("hello")]).is_err());
}

#[test]
fn test_parse_while() {
    assert_eq!(
        Statement::try_parse(&tokens_of("while abc == 123 { input ( cde ) }")).unwrap(),
        Statement::WHILE(
            Bool {
                compares: vec![Compare::EQ(var("abc"), Num(123))],
            },
            Function(vec![Statement::Input(var("cde"))]),
        )
    );
    assert!(Statement::try_parse(&tokens_of("while abc == 123 input ( cde ) }")).is_err());
    assert!(Statement::try_parse(&tokens_of("while { input ( cde ) }")).is_err());
    assert_eq!(
        Statement::try_parse(&tokens_of("while abc == 123 && efg != 124 { input ( hij ) }"))
            .unwrap(),
        Statement::WHILE(
            Bool {
                compares: vec![
                    Compare::EQ(var("abc"), Num(123)),
                    Compare::NE(var("efg"), Num(124)),
                ],
            },
            Function(vec![Statement::Input(var("hij"))]),
        )
    );
}

#[test]
fn test_parse_if() {
    assert_eq!(
        Statement::try_parse(&tokens_of("if abc == 123 { input ( cde ) }")).unwrap(),
        Statement::IF(
            Bool {
                compares: vec![Compare::EQ(var("abc"), Num(123))],
            },
            Function(vec![Statement::Input(var("cde"))]),
            None,
        )
    );
    assert!(Statement::try_parse(&tokens_of("if abc == 123 input ( cde ) }")).is_err());
}

#[test]
fn test_parse_if_else() {
    assert_eq!(
        Statement::try_parse(&tokens_of(
            "if abc == 123 { input ( cde ) } else { output ( fgh ) }"
        ))
        .unwrap(),
        Statement::IF(
            Bool {
                compares: vec![Compare::EQ(var("abc"), Num(123))],
            },
            Function(vec![Statement::Input(var("cde"))]),
            Some(Function(vec![Statement::Output(var("fgh"))])),
        )
    );
    assert!(
        Statement::try_parse(&tokens_of("if abc == 123 input ( cde ) } else output ( efg ) }"))
            .is_err()
    );
}

#[test]
fn test_parse_ast() {
    // This program never closes the while block: one closing brace is
    // missing, so the statements are not followed by end-of-input and the
    // parse is rejected.
    let program = "
while state != 0 {
    if state == 1 {
        if symbol == 0 {
            symbol = 1
            move_left
            state = 0
        } else {
            if symbol == 1 {
                symbol = 0
                move_right
                state = 0
            }
        }
    }
";
    let tokens = tokens_of(program);
    assert!(AST::parse(&tokens).is_err());
}

#[test]
fn test_parse_ast_balanced() {
    let program = "
while state != 0 {
    if state == 1 {
        if symbol == 0 {
            symbol = 1
            move_left
            state = 0
        } else {
            if symbol == 1 {
                symbol = 0
                move_right
                state = 0
            }
        }
    }
}
";
    let tokens = tokens_of(program);
    let tree = AST::parse(&tokens).unwrap();
    let expect = vec![Statement::WHILE(
        Bool {
            compares: vec![Compare::NE(var("state"), Num(0))],
        },
        Function(vec![Statement::IF(
            Bool {
                compares: vec![Compare::EQ(var("state"), Num(1))],
            },
            Function(vec![Statement::IF(
                Bool {
                    compares: vec![Compare::EQ(var("symbol"), Num(0))],
                },
                Function(vec![
                    Statement::Assign(var("symbol"), Num(1)),
                    Statement::Move(Direction::Left),
                    Statement::Assign(var("state"), Num(0)),
                ]),
                Some(Function(vec![Statement::IF(
                    Bool {
                        compares: vec![Compare::EQ(var("symbol"), Num(1))],
                    },
                    Function(vec![
                        Statement::Assign(var("symbol"), Num(0)),
                        Statement::Move(Direction::Right),
                        Statement::Assign(var("state"), Num(0)),
                    ]),
                    None,
                )])),
            )]),
            None,
        )]),
    )];
    assert_eq!(tree.statements(), &expect);
}

#[test]
fn test_parse_num_over_range() {
    assert!(Num::from_token(&num("256")).is_err());
    assert_eq!(Num::from_token(&num("255")).unwrap(), Num(255));
    assert_eq!(Num::from_token(&num("0255")).unwrap(), Num(255));
}

#[test]
fn test_parse_token_stream_to_function() {
    let stream = TokenStream::tokenize("x = 1 output ( x )").unwrap();
    let body = tapec::parser::parse(stream).unwrap();
    assert_eq!(
        body,
        Function(vec![
            Statement::Assign(var("x"), Num(1)),
            Statement::Output(var("x")),
        ])
    );
    let bad = TokenStream::tokenize("x = 1 }").unwrap();
    assert!(tapec::parser::parse(bad).is_err());
}

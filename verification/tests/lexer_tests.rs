use monkeyrs::lexer::Lexer;
use monkeyrs::token::Token;

#[test]
fn test_lexer() {
    let input = "let five = 5;
                    let ten = 10;

                    let add = fn(x, y) {
                    x + y;
                    };

                    let result = add(five, ten);
                    !-/*5;
                    5 < 10 > 5;

                    if (5 < 10) {
                    return true;
                    } else {
                    return false;
                    }

                    10 == 10;
                    10 != 9;
                    ";

    let mut lexer = Lexer::new(input);

    let expected = vec![
        Token::LET,
        Token::IDENT("five".to_string()),
        Token::ASSIGN,
        Token::INT(5),
        Token::SEMICOLON,
        Token::LET,
        Token::IDENT("ten".to_string()),
        Token::ASSIGN,
        Token::INT(10),
        Token::SEMICOLON,
        Token::LET,
        Token::IDENT("add".to_string()),
        Token::ASSIGN,
        Token::FUNCTION,
        Token::LPAREN,
        Token::IDENT("x".to_string()),
        Token::COMMA,
        Token::IDENT("y".to_string()),
        Token::RPAREN,
        Token::LBRACE,
        Token::IDENT("x".to_string()),
        Token::PLUS,
        Token::IDENT("y".to_string()),
        Token::SEMICOLON,
        Token::RBRACE,
        Token::SEMICOLON,
        Token::LET,
        Token::IDENT("result".to_string()),
        Token::ASSIGN,
        Token::IDENT("add".to_string()),
        Token::LPAREN,
        Token::IDENT("five".to_string()),
        Token::COMMA,
        Token::IDENT("ten".to_string()),
        Token::RPAREN,
        Token::SEMICOLON,
        Token::BANG,
        Token::MINUS,
        Token::SLASH,
        Token::ASTERISK,
        Token::INT(5),
        Token::SEMICOLON,
        Token::INT(5),
        Token::LT,
        Token::INT(10),
        Token::GT,
        Token::INT(5),
        Token::SEMICOLON,
        Token::IF,
        Token::LPAREN,
        Token::INT(5),
        Token::LT,
        Token::INT(10),
        Token::RPAREN,
        Token::LBRACE,
        Token::RETURN,
        Token::TRUE,
        Token::SEMICOLON,
        Token::RBRACE,
        Token::ELSE,
        Token::LBRACE,
        Token::RETURN,
        Token::FALSE,
        Token::SEMICOLON,
        Token::RBRACE,
        Token::INT(10),
        Token::EQ,
        Token::INT(10),
        Token::SEMICOLON,
        Token::INT(10),
        Token::NOT_EQ,
        Token::INT(9),
        Token::SEMICOLON,
    ];

    let mut tokens = Vec::new();

    loop {
        let tok = lexer.next_token();

        match tok {
            Some(Token::ILLEGAL) => panic!("Illegal token: {:#?}", tok),
            Some(t) => {
                tokens.push(t);
            }
            None => break,
        }
    }

    for (actual, expected) in tokens.into_iter().zip(expected.into_iter()) {
        if actual != expected {
            assert_eq!(actual, expected);
        }
    }
}

#[test]
fn lexer_rejects_oversized_integer_literal() {
    // One past i64::MAX cannot be represented and must come out ILLEGAL.
    let mut lexer = Lexer::new("9223372036854775808");
    assert_eq!(lexer.next_token(), Some(Token::ILLEGAL));
    assert_eq!(lexer.next_token(), None);

    let mut max = Lexer::new("9223372036854775807");
    assert_eq!(max.next_token(), Some(Token::INT(i64::MAX)));
}

#[test]
fn lexer_marks_unknown_characters_illegal() {
    let mut lexer = Lexer::new("5 @ 6");
    assert_eq!(lexer.next_token(), Some(Token::INT(5)));
    assert_eq!(lexer.next_token(), Some(Token::ILLEGAL));
    assert_eq!(lexer.next_token(), Some(Token::INT(6)));
    assert_eq!(lexer.next_token(), None);
}

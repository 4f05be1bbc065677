use monkeyrs::ast::{Node, Program};
use monkeyrs::lexer::Lexer;
use monkeyrs::parser::{ParseError, Parser};
use monkeyrs::token::Token;

#[test]
fn test_parser() {
    let input = "let negative_five = -5; return !negative_five; let y = 4 + 4;";
    let lexer = Lexer::new(input);
    let mut parser = Parser::new(lexer);

    let expected = Program {
        statements: vec![
            Node::LetStatement {
                token: Token::LET,
                name: Box::new(Node::Identifier {
                    token: Token::IDENT("negative_five".to_string()),
                    value: "negative_five".to_string(),
                }),
                value: Box::new(Node::PrefixExpression {
                    token: Token::MINUS,
                    operator: "MINUS".to_string(),
                    right: Some(Box::new(Node::IntegerLiteral {
                        token: Token::INT(5),
                        value: 5,
                    })),
                }),
            },
            Node::ReturnStatement {
                token: Token::RETURN,
                value: Some(Box::new(Node::PrefixExpression {
                    token: Token::BANG,
                    operator: "BANG".to_string(),
                    right: Some(Box::new(Node::Identifier {
                        token: Token::IDENT("negative_five".to_string()),
                        value: "negative_five".to_string(),
                    })),
                })),
            },
            Node::LetStatement {
                token: Token::LET,
                name: Box::new(Node::Identifier {
                    token: Token::IDENT("y".to_string()),
                    value: "y".to_string(),
                }),
                value: Box::new(Node::InfixExpression {
                    token: Token::PLUS,
                    operator: "PLUS".to_string(),
                    left: Box::new(Node::IntegerLiteral {
                        token: Token::INT(4),
                        value: 4,
                    }),
                    right: Some(Box::new(Node::IntegerLiteral {
                        token: Token::INT(4),
                        value: 4,
                    })),
                }),
            },
        ],
    };

    assert_eq!(parser.parse_program(), expected, "AST differs");
}

#[test]
fn test_block_statement() {
    let input = "{ let a = 4; let b = 5; };";
    let lexer = Lexer::new(input);
    let mut parser = Parser::new(lexer);

    let expected = Program {
        statements: vec![Node::BlockStatement {
            token: Token::LBRACE,
            statements: vec![
                Box::new(Node::LetStatement {
                    token: Token::LET,
                    name: Box::new(Node::Identifier {
                        token: Token::IDENT("a".to_string()),
                        value: "a".to_string(),
                    }),
                    value: Box::new(Node::IntegerLiteral {
                        token: Token::INT(4),
                        value: 4,
                    }),
                }),
                Box::new(Node::LetStatement {
                    token: Token::LET,
                    name: Box::new(Node::Identifier {
                        token: Token::IDENT("b".to_string()),
                        value: "b".to_string(),
                    }),
                    value: Box::new(Node::IntegerLiteral {
                        token: Token::INT(5),
                        value: 5,
                    }),
                }),
            ],
        }],
    };

    assert_eq!(parser.parse_program(), expected, "AST differs");
}

#[test]
fn test_fn_literal_statement() {
    let input = "fn foo(bar, baz) {let x = 5; return x;}";
    let lexer = Lexer::new(input);
    let mut parser = Parser::new(lexer);

    let expected = Program {
        statements: vec![Node::FunctionLiteral {
            token: Token::IDENT("foo".to_string()),
            parameters: vec![
                Node::Identifier {
                    token: Token::IDENT("bar".to_string()),
                    value: "bar".to_string(),
                },
                Node::Identifier {
                    token: Token::IDENT("baz".to_string()),
                    value: "baz".to_string(),
                },
            ],
            body: Box::new(Node::BlockStatement {
                token: Token::LBRACE,
                statements: vec![
                    Box::new(Node::LetStatement {
                        token: Token::LET,
                        name: Box::new(Node::Identifier {
                            token: Token::IDENT("x".to_string()),
                            value: "x".to_string(),
                        }),
                        value: Box::new(Node::IntegerLiteral {
                            token: Token::INT(5),
                            value: 5,
                        }),
                    }),
                    Box::new(Node::ReturnStatement {
                        token: Token::RETURN,
                        value: Some(Box::new(Node::Identifier {
                            token: Token::IDENT("x".to_string()),
                            value: "x".to_string(),
                        })),
                    }),
                ],
            }),
        }],
    };

    assert_eq!(parser.parse_program(), expected);
}

#[test]
fn test_fn_call() {
    let input = "foo(bar, baz);";
    let lexer = Lexer::new(input);
    let mut parser = Parser::new(lexer);

    let expected = Program {
        statements: vec![Node::CallExpression {
            token: Token::LPAREN,
            fn_name: Box::new(Node::Identifier {
                token: Token::IDENT("foo".to_string()),
                value: "foo".to_string(),
            }),
            parameters: vec![
                Node::Identifier {
                    token: Token::IDENT("bar".to_string()),
                    value: "bar".to_string(),
                },
                Node::Identifier {
                    token: Token::IDENT("baz".to_string()),
                    value: "baz".to_string(),
                },
            ],
        }],
    };

    assert_eq!(parser.parse_program(), expected);
}

#[test]
fn test_double_infix_expression() {
    // Left associativity groups `5 + 4 * 3 + 2` as `(5 + (4 * 3)) + 2`.
    let input = "let a = 5 + 4 * 3 + 2;";
    let lexer = Lexer::new(input);
    let mut parser = Parser::new(lexer);

    let expected = Program {
        statements: vec![Node::LetStatement {
            token: Token::LET,
            name: Box::new(Node::Identifier {
                token: Token::IDENT("a".to_string()),
                value: "a".to_string(),
            }),
            value: Box::new(Node::InfixExpression {
                token: Token::PLUS,
                operator: "PLUS".to_string(),
                left: Box::new(Node::InfixExpression {
                    token: Token::PLUS,
                    operator: "PLUS".to_string(),
                    left: Box::new(Node::IntegerLiteral {
                        token: Token::INT(5),
                        value: 5,
                    }),
                    right: Some(Box::new(Node::InfixExpression {
                        token: Token::ASTERISK,
                        operator: "ASTERISK".to_string(),
                        left: Box::new(Node::IntegerLiteral {
                            token: Token::INT(4),
                            value: 4,
                        }),
                        right: Some(Box::new(Node::IntegerLiteral {
                            token: Token::INT(3),
                            value: 3,
                        })),
                    })),
                }),
                right: Some(Box::new(Node::IntegerLiteral {
                    token: Token::INT(2),
                    value: 2,
                })),
            }),
        }],
    };

    assert_eq!(parser.parse_program(), expected);
}

#[test]
fn test_bool() {
    let input = "true";
    let lexer = Lexer::new(input);
    let mut parser = Parser::new(lexer);

    let expected = Program {
        statements: vec![Node::Boolean {
            token: Token::TRUE,
            value: true,
        }],
    };

    assert_eq!(parser.parse_program(), expected);
}

fn parse(input: &str) -> Program {
    let lexer = Lexer::new(input);
    let mut parser = Parser::new(lexer);
    let program = parser.parse_program();
    assert_eq!(parser.last_error(), None, "parse failed for {input:?}");
    program
}

fn int_lit(v: i64) -> Node {
    Node::IntegerLiteral {
        token: Token::INT(v),
        value: v,
    }
}

fn infix(op_token: Token, op: &str, left: Node, right: Node) -> Node {
    Node::InfixExpression {
        token: op_token,
        operator: op.to_string(),
        left: Box::new(left),
        right: Some(Box::new(right)),
    }
}

#[test]
fn subtraction_is_left_associative() {
    // `1 - 2 - 3` groups as `(1 - 2) - 3`.
    let program = parse("1 - 2 - 3");
    let expected = infix(
        Token::MINUS,
        "MINUS",
        infix(Token::MINUS, "MINUS", int_lit(1), int_lit(2)),
        int_lit(3),
    );
    assert_eq!(program.statements, vec![expected]);
}

#[test]
fn product_binds_tighter_than_sum() {
    // `1 + 2 * 3` groups as `1 + (2 * 3)`.
    let program = parse("1 + 2 * 3");
    let expected = infix(
        Token::PLUS,
        "PLUS",
        int_lit(1),
        infix(Token::ASTERISK, "ASTERISK", int_lit(2), int_lit(3)),
    );
    assert_eq!(program.statements, vec![expected]);
}

#[test]
fn explicit_grouping_overrides_precedence() {
    // `(1 + 2) * 3` keeps the grouped sum on the left.
    let program = parse("(1 + 2) * 3");
    let expected = infix(
        Token::ASTERISK,
        "ASTERISK",
        infix(Token::PLUS, "PLUS", int_lit(1), int_lit(2)),
        int_lit(3),
    );
    assert_eq!(program.statements, vec![expected]);
}

#[test]
fn anonymous_function_literal_round_trip() {
    // `fn(bar, baz) { return bar; }` yields a function literal with two
    // identifier parameters and a one-statement body.
    let program = parse("fn(bar, baz) { return bar; }");
    assert_eq!(program.statements.len(), 1);
    match &program.statements[0] {
        Node::FunctionLiteral {
            parameters, body, ..
        } => {
            assert_eq!(
                parameters,
                &vec![
                    Node::Identifier {
                        token: Token::IDENT("bar".to_string()),
                        value: "bar".to_string(),
                    },
                    Node::Identifier {
                        token: Token::IDENT("baz".to_string()),
                        value: "baz".to_string(),
                    },
                ]
            );
            match &**body {
                Node::BlockStatement { statements, .. } => {
                    assert_eq!(statements.len(), 1);
                    assert!(matches!(
                        &*statements[0],
                        Node::ReturnStatement {
                            value: Some(_),
                            ..
                        }
                    ));
                }
                other => panic!("expected a block body, got {other:?}"),
            }
        }
        other => panic!("expected a function literal, got {other:?}"),
    }
}

#[test]
fn missing_prefix_handler_is_reported() {
    // A bare `;` cannot begin an expression.
    let lexer = Lexer::new(";");
    let mut parser = Parser::new(lexer);
    let program = parser.parse_program();
    assert_eq!(program.statements, vec![]);
    assert_eq!(parser.last_error(), Some(ParseError::MissingPrefixHandler));
}

#[test]
fn missing_operand_is_reported() {
    // Input ending right after an operator has no right-hand side.
    let lexer = Lexer::new("1 +");
    let mut parser = Parser::new(lexer);
    let program = parser.parse_program();
    assert_eq!(program.statements, vec![]);
    assert_eq!(parser.last_error(), Some(ParseError::MissingOperand));
}

#[test]
fn let_without_assign_is_reported() {
    // `let x 5;` misses the `=` after the identifier.
    let lexer = Lexer::new("let x 5;");
    let mut parser = Parser::new(lexer);
    let program = parser.parse_program();
    assert_eq!(program.statements, vec![]);
    assert_eq!(parser.last_error(), Some(ParseError::UnexpectedToken));
}

#[test]
fn empty_input_is_a_valid_program() {
    let program = parse("");
    assert_eq!(program.statements, vec![]);
}

#[test]
fn bare_return_parses_without_value() {
    let program = parse("return;");
    assert_eq!(
        program.statements,
        vec![Node::ReturnStatement {
            token: Token::RETURN,
            value: None,
        }]
    );
}

#[test]
fn if_without_else_has_absent_alternative() {
    let program = parse("if (true) { 1 }");
    assert_eq!(program.statements.len(), 1);
    match &program.statements[0] {
        Node::IfExpression { alternative, .. } => assert!(alternative.is_none()),
        other => panic!("expected an if expression, got {other:?}"),
    }
}

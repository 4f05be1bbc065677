use monkeyrs::evaluator::{eval, eval_program, EvalError, Evaluation};
use monkeyrs::lexer;
use monkeyrs::object::{Boolean, Integer, Object, Value};
use monkeyrs::parser;

#[test]
fn test_eval_integer_literal() {
    let input = "5";

    let lexer = lexer::Lexer::new(input);
    let mut parser = parser::Parser::new(lexer);

    let program = parser.parse_program();

    let evaled = eval_program(program);

    assert_eq!(evaled.unwrap().inspect(), "5");
}

#[test]
fn test_eval_bool_literal() {
    let input = "true";

    let lexer = lexer::Lexer::new(input);
    let mut parser = parser::Parser::new(lexer);

    let program = parser.parse_program();

    let evaled = eval_program(program);

    assert_eq!(evaled.unwrap().inspect(), "true");
}

#[test]
fn test_eval_bang_bool_literal() {
    let input = "!true";

    let lexer = lexer::Lexer::new(input);
    let mut parser = parser::Parser::new(lexer);

    let program = parser.parse_program();
    let evaled = eval_program(program);

    assert_eq!(evaled.expect("failed to eval").inspect(), "false");
}

#[test]
fn test_eval_bang_bang_bool_literal() {
    let input = "!!true";

    let lexer = lexer::Lexer::new(input);
    let mut parser = parser::Parser::new(lexer);

    let program = parser.parse_program();
    let evaled = eval_program(program);

    assert_eq!(evaled.expect("failed to eval").inspect(), "true");
}

#[test]
fn test_eval_negate() {
    let input = "-5";

    let lexer = lexer::Lexer::new(input);
    let mut parser = parser::Parser::new(lexer);

    let program = parser.parse_program();

    let evaled = eval_program(program);

    assert_eq!(evaled.expect("failed to eval").inspect(), "-5");
}

#[test]
fn test_eval_plus() {
    let input = "-5 + 5";

    let lexer = lexer::Lexer::new(input);
    let mut parser = parser::Parser::new(lexer);

    let program = parser.parse_program();

    let evaled = eval_program(program);

    assert_eq!(evaled.expect("failed to eval").inspect(), "0");
}

#[test]
fn test_bool_cmp() {
    let input = "true == true";

    let lexer = lexer::Lexer::new(input);
    let mut parser = parser::Parser::new(lexer);

    let program = parser.parse_program();

    let evaled = eval_program(program);

    assert_eq!(evaled.expect("failed to eval").inspect(), "true");
}

#[test]
fn test_integer_cmp() {
    let input = "3 == 3";

    let lexer = lexer::Lexer::new(input);
    let mut parser = parser::Parser::new(lexer);

    let program = parser.parse_program();

    let evaled = eval_program(program);

    assert_eq!(evaled.expect("failed to eval").inspect(), "true");
}

#[test]
fn test_conditional_1() {
    let input = "if (3 == 3) { 1 } else { -1 } ";

    let lexer = lexer::Lexer::new(input);
    let mut parser = parser::Parser::new(lexer);

    let program = parser.parse_program();

    let evaled = eval_program(program);

    assert_eq!(evaled.expect("failed to eval").inspect(), "1");
}

#[test]
fn test_conditional_2() {
    let input = "if (3 != 3) { 1 } else { -1 } ";

    let lexer = lexer::Lexer::new(input);
    let mut parser = parser::Parser::new(lexer);

    let program = parser.parse_program();

    let evaled = eval_program(program);

    assert_eq!(evaled.expect("failed to eval").inspect(), "-1");
}

fn run(input: &str) -> Option<Value> {
    let lexer = lexer::Lexer::new(input);
    let mut parser = parser::Parser::new(lexer);
    let program = parser.parse_program();
    assert_eq!(parser.last_error(), None, "parse failed for {input:?}");
    eval_program(program)
}

#[test]
fn conditional_without_alternative_yields_no_value() {
    // `if (false) { 1 }` selects nothing.
    assert_eq!(run("if (false) { 1 }"), None);
}

#[test]
fn program_keeps_last_value() {
    // `5; true;` discards the first statement's value.
    assert_eq!(run("5; true;"), Some(Value::Bool(Boolean { value: true })));
    assert_eq!(run("true; 5;"), Some(Value::Int(Integer { value: 5 })));
}

#[test]
fn empty_program_yields_no_value() {
    assert_eq!(run(""), None);
}

#[test]
fn integer_arithmetic_is_exact() {
    assert_eq!(run("2 + 3 * 4"), Some(Value::Int(Integer { value: 14 })));
    assert_eq!(run("(2 + 3) * 4"), Some(Value::Int(Integer { value: 20 })));
    assert_eq!(run("10 - 2 - 3"), Some(Value::Int(Integer { value: 5 })));
    assert_eq!(run("7 / 2"), Some(Value::Int(Integer { value: 3 })));
    assert_eq!(run("-7 / 2"), Some(Value::Int(Integer { value: -3 })));
    assert_eq!(run("3 != 4"), Some(Value::Bool(Boolean { value: true })));
}

#[test]
fn division_by_zero_fails() {
    assert_eq!(run("1 / 0"), None);
    let node = monkeyrs::ast::Node::InfixExpression {
        token: monkeyrs::token::Token::SLASH,
        operator: "SLASH".to_string(),
        left: Box::new(monkeyrs::ast::Node::IntegerLiteral {
            token: monkeyrs::token::Token::INT(1),
            value: 1,
        }),
        right: Some(Box::new(monkeyrs::ast::Node::IntegerLiteral {
            token: monkeyrs::token::Token::INT(0),
            value: 0,
        })),
    };
    assert_eq!(
        monkeyrs::evaluator::eval_node(&node),
        Evaluation::Fail(EvalError::DivisionByZero)
    );
}

#[test]
fn type_mismatch_fails() {
    // Boolean minus integer has no rule.
    assert_eq!(run("true - 1"), None);
    let node = monkeyrs::ast::Node::PrefixExpression {
        token: monkeyrs::token::Token::BANG,
        operator: "BANG".to_string(),
        right: Some(Box::new(monkeyrs::ast::Node::IntegerLiteral {
            token: monkeyrs::token::Token::INT(3),
            value: 3,
        })),
    };
    assert_eq!(
        monkeyrs::evaluator::eval_node(&node),
        Evaluation::Fail(EvalError::TypeMismatch)
    );
}

#[test]
fn comparison_operators_have_no_evaluation_rule() {
    // `<` and `>` parse but the evaluator defines no rule for them.
    assert_eq!(run("1 < 2"), None);
    assert_eq!(run("2 > 1"), None);
}

#[test]
fn eval_on_single_nodes() {
    let lit = monkeyrs::ast::Node::IntegerLiteral {
        token: monkeyrs::token::Token::INT(5),
        value: 5,
    };
    assert_eq!(eval(&lit), Some(Value::Int(Integer { value: 5 })));
    assert_eq!(eval(&lit).unwrap().inspect(), "5");

    let b = monkeyrs::ast::Node::Boolean {
        token: monkeyrs::token::Token::TRUE,
        value: true,
    };
    assert_eq!(eval(&b).unwrap().inspect(), "true");
}

#[test]
fn value_rendering_covers_extremes() {
    assert_eq!(Value::Int(Integer { value: i64::MIN }).inspect(), "-9223372036854775808");
    assert_eq!(Value::Int(Integer { value: i64::MAX }).inspect(), "9223372036854775807");
    assert_eq!(Value::Int(Integer { value: 0 }).inspect(), "0");
    assert_eq!(Integer { value: -42 }.inspect(), "-42");
    assert_eq!(
        Integer { value: -42 }.get_type(),
        monkeyrs::object::ObjectType::Integer64
    );
    assert_eq!(Boolean { value: false }.inspect(), "false");
}

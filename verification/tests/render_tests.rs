use monkeyrs::ast::Node;
use monkeyrs::evaluator::eval_program;
use monkeyrs::lexer::Lexer;
use monkeyrs::object::Value;
use monkeyrs::parser::Parser;
use monkeyrs::token::Token;

fn int_lit(v: i64) -> Node {
    Node::IntegerLiteral {
        token: Token::INT(v),
        value: v,
    }
}

fn bool_lit(v: bool) -> Node {
    Node::Boolean {
        token: if v { Token::TRUE } else { Token::FALSE },
        value: v,
    }
}

fn prefix(op_token: Token, op: &str, operand: Node) -> Node {
    Node::PrefixExpression {
        token: op_token,
        operator: op.to_string(),
        right: Some(Box::new(operand)),
    }
}

fn infix(op_token: Token, op: &str, left: Node, right: Node) -> Node {
    Node::InfixExpression {
        token: op_token,
        operator: op.to_string(),
        left: Box::new(left),
        right: Some(Box::new(right)),
    }
}

fn block(stmts: Vec<Node>) -> Node {
    Node::BlockStatement {
        token: Token::LBRACE,
        statements: stmts.into_iter().map(Box::new).collect(),
    }
}

fn if_expr(cond: Node, conseq: Node, alt: Option<Node>) -> Node {
    Node::IfExpression {
        token: Token::IF,
        condition: Box::new(cond),
        consequence: Box::new(conseq),
        alternative: alt.map(Box::new),
    }
}

/// Evaluate a node directly, and again after rendering it to text and
/// re-parsing; both results must agree.
fn assert_round_trip(node: Node) -> Option<Value> {
    let direct = monkeyrs::evaluator::eval(&node);
    let text = node.render().expect("node should render");
    let lexer = Lexer::new(&text);
    let mut parser = Parser::new(lexer);
    let program = parser.parse_program();
    assert_eq!(parser.last_error(), None, "re-parse failed for {text:?}");
    let reparsed = eval_program(program);
    assert_eq!(direct, reparsed, "outcomes differ for {text:?}");
    reparsed
}

#[test]
fn literals_round_trip_through_text() {
    // The rendering of a literal re-parses to the very same value.
    assert_eq!(assert_round_trip(int_lit(5)).unwrap().inspect(), "5");
    assert_eq!(assert_round_trip(int_lit(-5)).unwrap().inspect(), "-5");
    assert_eq!(assert_round_trip(int_lit(0)).unwrap().inspect(), "0");
    assert_eq!(assert_round_trip(int_lit(i64::MAX)).unwrap().inspect(), "9223372036854775807");
    assert_eq!(assert_round_trip(bool_lit(true)).unwrap().inspect(), "true");
    assert_eq!(assert_round_trip(bool_lit(false)).unwrap().inspect(), "false");
}

#[test]
fn operators_round_trip_through_text() {
    let e = infix(
        Token::PLUS,
        "PLUS",
        prefix(Token::MINUS, "MINUS", int_lit(5)),
        int_lit(5),
    );
    assert_eq!(assert_round_trip(e).unwrap().inspect(), "0");

    let e = infix(
        Token::ASTERISK,
        "ASTERISK",
        infix(Token::PLUS, "PLUS", int_lit(1), int_lit(2)),
        int_lit(3),
    );
    assert_eq!(assert_round_trip(e).unwrap().inspect(), "9");

    let e = prefix(
        Token::BANG,
        "BANG",
        prefix(Token::BANG, "BANG", bool_lit(true)),
    );
    assert_eq!(assert_round_trip(e).unwrap().inspect(), "true");

    let e = infix(Token::EQ, "EQ", int_lit(3), int_lit(3));
    assert_eq!(assert_round_trip(e).unwrap().inspect(), "true");
}

#[test]
fn conditionals_round_trip_through_text() {
    let e = if_expr(
        infix(Token::EQ, "EQ", int_lit(3), int_lit(3)),
        block(vec![int_lit(1)]),
        Some(block(vec![prefix(Token::MINUS, "MINUS", int_lit(1))])),
    );
    assert_eq!(assert_round_trip(e).unwrap().inspect(), "1");

    let e = if_expr(
        infix(Token::NOT_EQ, "NOT_EQ", int_lit(3), int_lit(3)),
        block(vec![int_lit(1)]),
        Some(block(vec![prefix(Token::MINUS, "MINUS", int_lit(1))])),
    );
    assert_eq!(assert_round_trip(e).unwrap().inspect(), "-1");

    // No alternative and a false condition: no value, on both paths.
    let e = if_expr(bool_lit(false), block(vec![int_lit(1)]), None);
    assert_eq!(assert_round_trip(e), None);
}

#[test]
fn rendered_text_is_spaced_tokens() {
    let e = infix(Token::PLUS, "PLUS", int_lit(1), int_lit(2));
    assert_eq!(e.render().unwrap(), "( 1 + 2 )");
    assert_eq!(int_lit(-7).render().unwrap(), "( - 7 )");
    let e = if_expr(bool_lit(true), block(vec![int_lit(1)]), None);
    assert_eq!(e.render().unwrap(), "if ( true ) { 1 ; }");
}

#[test]
fn nodes_without_a_renderer_give_none() {
    // The minimum i64 has no in-range magnitude literal.
    assert!(int_lit(i64::MIN).render().is_none());
    // Identifiers are outside the evaluated fragment.
    let ident = Node::Identifier {
        token: Token::IDENT("x".to_string()),
        value: "x".to_string(),
    };
    assert!(ident.render().is_none());
    // A prefix expression with a missing operand has no rendering.
    let broken = Node::PrefixExpression {
        token: Token::MINUS,
        operator: "MINUS".to_string(),
        right: None,
    };
    assert!(broken.render().is_none());
}

//! The evaluator: walks the syntax tree depth-first and reduces each node
//! to a runtime value.
//!
//! `spec_eval` defines the semantics over `SpecNode`: literals yield their
//! value, `!` and the arithmetic and comparison operators act on booleans
//! and 64-bit integers (addition, subtraction, multiplication and negation
//! wrap on overflow; division truncates, fails on a zero divisor, and wraps
//! on the one overflowing quotient), conditionals select a branch by a
//! boolean condition, and statement lists keep their last value. A list of
//! statements aborts at the first failure; a node kind outside this core
//! (bindings, calls, identifiers) yields no value. `eval_node` is proved to
//! follow `spec_eval` exactly.

use crate::ast::{boxed_nodes_view, node_view, nodes_view, opt_node_view, Node, Program, SpecNode};
use crate::object::{Boolean, Integer, Value};
use crate::token::str_eq;
use vstd::prelude::*;
use vstd::wrapping::i64_specs;

verus! {

/// The distinguishable ways evaluation can fail.
#[derive(Debug, Clone, Copy, PartialEq, Eq, Structural)]
pub enum EvalError {
    /// An operator was applied to operands with no defined rule.
    TypeMismatch,
    /// Integer division by zero.
    DivisionByZero,
}

/// Outcome of evaluating a node: a value, no value at all (an empty
/// program, a false conditional without an alternative, a node kind whose
/// semantics lie outside this core), or a failure.
#[derive(Debug, Clone, Copy, PartialEq, Eq, Structural)]
pub enum Evaluation {
    Val(Value),
    Empty,
    Fail(EvalError),
}

/// The value an evaluation produced, if any.
pub open spec fn value_of(e: Evaluation) -> Option<Value> {
    match e {
        Evaluation::Val(v) => Option::Some(v),
        _ => Option::None,
    }
}

/// Operator tags the evaluator distinguishes.
pub enum Operator {
    Plus,
    Minus,
    Asterisk,
    Slash,
    Gt,
    Lt,
    Equal,
    NotEqual,
    Bang,
    Unknown,
}

/// The operator a node's operator text denotes.
pub open spec fn spec_op(op: Seq<char>) -> Operator {
    if op == "PLUS"@ {
        Operator::Plus
    } else if op == "MINUS"@ {
        Operator::Minus
    } else if op == "ASTERISK"@ {
        Operator::Asterisk
    } else if op == "SLASH"@ {
        Operator::Slash
    } else if op == "GT"@ {
        Operator::Gt
    } else if op == "LT"@ {
        Operator::Lt
    } else if op == "EQ"@ {
        Operator::Equal
    } else if op == "NOT_EQ"@ {
        Operator::NotEqual
    } else if op == "BANG"@ {
        Operator::Bang
    } else {
        Operator::Unknown
    }
}

/// Negation of an `i64`, wrapping on the minimum.
pub open spec fn spec_neg_i64(v: i64) -> i64 {
    i64_specs::wrapping_sub(0i64, v)
}

/// Truncating division of `a` by `b`, with the one overflowing quotient
/// wrapping to the minimum; `b` must not be zero.
pub open spec fn spec_div_i64(a: i64, b: i64) -> i64
    recommends
        b != 0,
{
    if a == i64::MIN && b == -1 {
        i64::MIN
    } else {
        let ua = if a < 0 {
            -(a as int)
        } else {
            a as int
        };
        let ub = if b < 0 {
            -(b as int)
        } else {
            b as int
        };
        let q = ua / ub;
        if (a < 0) != (b < 0) {
            (-q) as i64
        } else {
            q as i64
        }
    }
}

/// A prefix operator applied to one runtime value: `!` negates a boolean,
/// `-` negates an integer; everything else has no rule.
pub open spec fn spec_apply_prefix(op: Seq<char>, v: Value) -> Evaluation {
    match spec_op(op) {
        Operator::Bang => match v {
            Value::Bool(b) => Evaluation::Val(Value::Bool(Boolean { value: !b.value })),
            _ => Evaluation::Fail(EvalError::TypeMismatch),
        },
        Operator::Minus => match v {
            Value::Int(i) => Evaluation::Val(
                Value::Int(Integer { value: spec_neg_i64(i.value) }),
            ),
            _ => Evaluation::Fail(EvalError::TypeMismatch),
        },
        _ => Evaluation::Fail(EvalError::TypeMismatch),
    }
}

/// An infix operator applied to two runtime values, dispatched by the pair
/// of tags: integers support arithmetic and equality, booleans only
/// equality; every other combination has no rule.
pub open spec fn spec_apply_infix(op: Seq<char>, l: Value, r: Value) -> Evaluation {
    match (l, r) {
        (Value::Int(a), Value::Int(b)) => match spec_op(op) {
            Operator::Plus => Evaluation::Val(
                Value::Int(Integer { value: i64_specs::wrapping_add(a.value, b.value) }),
            ),
            Operator::Minus => Evaluation::Val(
                Value::Int(Integer { value: i64_specs::wrapping_sub(a.value, b.value) }),
            ),
            Operator::Asterisk => Evaluation::Val(
                Value::Int(Integer { value: i64_specs::wrapping_mul(a.value, b.value) }),
            ),
            Operator::Slash => if b.value == 0 {
                Evaluation::Fail(EvalError::DivisionByZero)
            } else {
                Evaluation::Val(Value::Int(Integer { value: spec_div_i64(a.value, b.value) }))
            },
            Operator::Equal => Evaluation::Val(
                Value::Bool(Boolean { value: a.value == b.value }),
            ),
            Operator::NotEqual => Evaluation::Val(
                Value::Bool(Boolean { value: a.value != b.value }),
            ),
            _ => Evaluation::Fail(EvalError::TypeMismatch),
        },
        (Value::Bool(a), Value::Bool(b)) => match spec_op(op) {
            Operator::Equal => Evaluation::Val(
                Value::Bool(Boolean { value: a.value == b.value }),
            ),
            Operator::NotEqual => Evaluation::Val(
                Value::Bool(Boolean { value: a.value != b.value }),
            ),
            _ => Evaluation::Fail(EvalError::TypeMismatch),
        },
        _ => Evaluation::Fail(EvalError::TypeMismatch),
    }
}

/// Lift a prefix application over an operand's outcome: failures pass
/// through, an absent value has no rule.
pub open spec fn spec_eval_prefix(op: Seq<char>, v: Evaluation) -> Evaluation {
    match v {
        Evaluation::Fail(e) => Evaluation::Fail(e),
        Evaluation::Empty => Evaluation::Fail(EvalError::TypeMismatch),
        Evaluation::Val(x) => spec_apply_prefix(op, x),
    }
}

/// Lift an infix application over both operands' outcomes; the left side
/// is considered first.
pub open spec fn spec_eval_infix(op: Seq<char>, l: Evaluation, r: Evaluation) -> Evaluation {
    match l {
        Evaluation::Fail(e) => Evaluation::Fail(e),
        Evaluation::Empty => Evaluation::Fail(EvalError::TypeMismatch),
        Evaluation::Val(x) => match r {
            Evaluation::Fail(e) => Evaluation::Fail(e),
            Evaluation::Empty => Evaluation::Fail(EvalError::TypeMismatch),
            Evaluation::Val(y) => spec_apply_infix(op, x, y),
        },
    }
}

/// Evaluate one node.
pub open spec fn spec_eval(n: SpecNode) -> Evaluation
    decreases n, 1int,
{
    match n {
        SpecNode::IntLit { value } => Evaluation::Val(Value::Int(Integer { value })),
        SpecNode::BoolLit { value } => Evaluation::Val(Value::Bool(Boolean { value })),
        SpecNode::Wrapped { value } => spec_eval(*value),
        SpecNode::Prefix { operator, right } => match right {
            Option::Some(r) => spec_eval_prefix(operator, spec_eval(*r)),
            Option::None => Evaluation::Fail(EvalError::TypeMismatch),
        },
        SpecNode::Infix { operator, left, right } => match right {
            Option::Some(r) => spec_eval_infix(operator, spec_eval(*left), spec_eval(*r)),
            Option::None => Evaluation::Fail(EvalError::TypeMismatch),
        },
        SpecNode::Block { statements } => spec_eval_seq(statements),
        SpecNode::If { condition, consequence, alternative } => match spec_eval(*condition) {
            Evaluation::Val(Value::Bool(b)) => if b.value {
                spec_eval(*consequence)
            } else {
                match alternative {
                    Option::Some(a) => spec_eval(*a),
                    Option::None => Evaluation::Empty,
                }
            },
            Evaluation::Val(Value::Int(_)) => Evaluation::Fail(EvalError::TypeMismatch),
            Evaluation::Empty => Evaluation::Fail(EvalError::TypeMismatch),
            Evaluation::Fail(e) => Evaluation::Fail(e),
        },
        _ => Evaluation::Empty,
    }
}

/// Evaluate statements in order: the result is the last statement's
/// outcome, and the first failure aborts the walk.
pub open spec fn spec_eval_seq(stmts: Seq<SpecNode>) -> Evaluation
    decreases stmts, 0int,
{
    if stmts.len() == 0 {
        Evaluation::Empty
    } else {
        let first = spec_eval(stmts[0]);
        if first is Fail {
            first
        } else if stmts.len() == 1 {
            first
        } else {
            spec_eval_seq(stmts.drop_first())
        }
    }
}

/// Conditional selection: the condition must reduce to a boolean; a false
/// condition without an alternative yields no value.
pub open spec fn spec_eval_if(cond: SpecNode, conseq: SpecNode, alt: Option<SpecNode>) -> Evaluation {
    match spec_eval(cond) {
        Evaluation::Val(Value::Bool(b)) => if b.value {
            spec_eval(conseq)
        } else {
            match alt {
                Option::Some(a) => spec_eval(a),
                Option::None => Evaluation::Empty,
            }
        },
        Evaluation::Val(Value::Int(_)) => Evaluation::Fail(EvalError::TypeMismatch),
        Evaluation::Empty => Evaluation::Fail(EvalError::TypeMismatch),
        Evaluation::Fail(e) => Evaluation::Fail(e),
    }
}

/// The operator tag of an operator name.
fn op_of_str(operator: &str) -> (o: Operator)
    ensures
        o == spec_op(operator@),
{
    if str_eq(operator, "PLUS") {
        Operator::Plus
    } else if str_eq(operator, "MINUS") {
        Operator::Minus
    } else if str_eq(operator, "ASTERISK") {
        Operator::Asterisk
    } else if str_eq(operator, "SLASH") {
        Operator::Slash
    } else if str_eq(operator, "GT") {
        Operator::Gt
    } else if str_eq(operator, "LT") {
        Operator::Lt
    } else if str_eq(operator, "EQ") {
        Operator::Equal
    } else if str_eq(operator, "NOT_EQ") {
        Operator::NotEqual
    } else if str_eq(operator, "BANG") {
        Operator::Bang
    } else {
        Operator::Unknown
    }
}

/// Negate a boolean value; an integer has no rule for `!`.
pub fn eval_bang(expr: &Value) -> (r: Result<Value, EvalError>)
    ensures
        expr matches Value::Bool(b) ==> r == Result::<Value, EvalError>::Ok(
            Value::Bool(Boolean { value: !b.value }),
        ),
        expr is Int ==> r == Result::<Value, EvalError>::Err(EvalError::TypeMismatch),
{
    match expr {
        Value::Bool(b) => Ok(Value::Bool(Boolean { value: !b.value })),
        Value::Int(_) => Err(EvalError::TypeMismatch),
    }
}

/// Negate an integer value, wrapping on the minimum; a boolean has no rule
/// for `-`.
pub fn eval_minus(expr: &Value) -> (r: Result<Value, EvalError>)
    ensures
        expr matches Value::Int(i) ==> r == Result::<Value, EvalError>::Ok(
            Value::Int(Integer { value: spec_neg_i64(i.value) }),
        ),
        expr is Bool ==> r == Result::<Value, EvalError>::Err(EvalError::TypeMismatch),
{
    match expr {
        Value::Int(i) => Ok(Value::Int(Integer { value: (0i64).wrapping_sub(i.value) })),
        Value::Bool(_) => Err(EvalError::TypeMismatch),
    }
}

/// Apply a prefix operator to a runtime value.
pub fn eval_prefix_expressions(operator: &str, expression: &Value) -> (r: Result<Value, EvalError>)
    ensures
        spec_apply_prefix(operator@, *expression) == (match r {
            Result::Ok(v) => Evaluation::Val(v),
            Result::Err(e) => Evaluation::Fail(e),
        }),
{
    match op_of_str(operator) {
        Operator::Bang => eval_bang(expression),
        Operator::Minus => eval_minus(expression),
        _ => Err(EvalError::TypeMismatch),
    }
}

/// Truncating division, wrapping on the one overflowing quotient.
fn div_i64(a: i64, b: i64) -> (q: i64)
    requires
        b != 0,
    ensures
        q == spec_div_i64(a, b),
{
    if a == i64::MIN && b == -1 {
        i64::MIN
    } else {
        let ua = crate::object::i64_magnitude(a);
        let ub = crate::object::i64_magnitude(b);
        let uq = ua / ub;
        proof {
            assert(uq as int == (ua as int) / (ub as int));
            assert(uq <= ua) by (nonlinear_arith)
                requires
                    uq as int == (ua as int) / (ub as int),
                    ub >= 1,
                    ua >= 0,
            ;
            if ua == (i64::MAX as u64) + 1 && ub >= 2 {
                assert(uq as int <= (ua as int) / 2) by (nonlinear_arith)
                    requires
                        uq as int == (ua as int) / (ub as int),
                        ub >= 2,
                        ua >= 0,
                ;
            }
        }
        if (a < 0) != (b < 0) {
            if uq > (i64::MAX as u64) {
                i64::MIN
            } else {
                -(uq as i64)
            }
        } else {
            uq as i64
        }
    }
}

/// Apply an infix operator to two integer operands.
pub fn eval_integer_infix_express(operator: &str, left: i64, right: i64) -> (r: Result<
    Value,
    EvalError,
>)
    ensures
        spec_apply_infix(operator@, Value::Int(Integer { value: left }), Value::Int(Integer { value: right }))
            == (match r {
            Result::Ok(v) => Evaluation::Val(v),
            Result::Err(e) => Evaluation::Fail(e),
        }),
{
    match op_of_str(operator) {
        Operator::Plus => Ok(Value::Int(Integer { value: left.wrapping_add(right) })),
        Operator::Minus => Ok(Value::Int(Integer { value: left.wrapping_sub(right) })),
        Operator::Asterisk => Ok(Value::Int(Integer { value: left.wrapping_mul(right) })),
        Operator::Slash => {
            if right == 0 {
                Err(EvalError::DivisionByZero)
            } else {
                Ok(Value::Int(Integer { value: div_i64(left, right) }))
            }
        },
        Operator::Equal => Ok(Value::Bool(Boolean { value: left == right })),
        Operator::NotEqual => Ok(Value::Bool(Boolean { value: left != right })),
        _ => Err(EvalError::TypeMismatch),
    }
}

/// Apply an infix operator to two boolean operands: only equality and
/// inequality are defined.
pub fn eval_boolean_infix_express(operator: &str, left: bool, right: bool) -> (r: Result<
    Value,
    EvalError,
>)
    ensures
        spec_apply_infix(
            operator@,
            Value::Bool(Boolean { value: left }),
            Value::Bool(Boolean { value: right }),
        ) == (match r {
            Result::Ok(v) => Evaluation::Val(v),
            Result::Err(e) => Evaluation::Fail(e),
        }),
{
    match op_of_str(operator) {
        Operator::Equal => Ok(Value::Bool(Boolean { value: left == right })),
        Operator::NotEqual => Ok(Value::Bool(Boolean { value: left != right })),
        _ => Err(EvalError::TypeMismatch),
    }
}

/// Apply an infix operator to two runtime values, dispatching on the pair
/// of tags.
pub fn eval_infix_expression(operator: &str, left: &Value, right: &Value) -> (r: Result<
    Value,
    EvalError,
>)
    ensures
        spec_apply_infix(operator@, *left, *right) == (match r {
            Result::Ok(v) => Evaluation::Val(v),
            Result::Err(e) => Evaluation::Fail(e),
        }),
{
    match (left, right) {
        (Value::Int(a), Value::Int(b)) => eval_integer_infix_express(operator, a.value, b.value),
        (Value::Bool(a), Value::Bool(b)) => eval_boolean_infix_express(operator, a.value, b.value),
        _ => Err(EvalError::TypeMismatch),
    }
}

/// Evaluate one node to its outcome.
pub fn eval_node(node: &Node) -> (r: Evaluation)
    ensures
        r == spec_eval(node@),
    decreases node, 1int,
{
    match node {
        Node::IntegerLiteral { value, .. } => Evaluation::Val(
            Value::Int(Integer { value: *value }),
        ),
        Node::Boolean { value, .. } => Evaluation::Val(Value::Bool(Boolean { value: *value })),
        Node::Expression { value, .. } => eval_node(value),
        Node::PrefixExpression { operator, right, .. } => match right {
            Some(rb) => {
                proof {
                    assert(opt_node_view(node->PrefixExpression_right) matches Option::Some(b)
                        && *b == node_view(**rb));
                }
                match eval_node(rb) {
                    Evaluation::Val(v) => match eval_prefix_expressions(operator.as_str(), &v) {
                        Ok(out) => Evaluation::Val(out),
                        Err(e) => Evaluation::Fail(e),
                    },
                    Evaluation::Empty => Evaluation::Fail(EvalError::TypeMismatch),
                    Evaluation::Fail(e) => Evaluation::Fail(e),
                }
            },
            None => {
                proof {
                    assert(opt_node_view(Option::None) is None);
                }
                Evaluation::Fail(EvalError::TypeMismatch)
            },
        },
        Node::InfixExpression { operator, left, right, .. } => match right {
            Some(rb) => {
                proof {
                    assert(opt_node_view(node->InfixExpression_right) matches Option::Some(b)
                        && *b == node_view(**rb));
                }
                match eval_node(left) {
                    Evaluation::Val(lv) => match eval_node(rb) {
                        Evaluation::Val(rv) => match eval_infix_expression(
                            operator.as_str(),
                            &lv,
                            &rv,
                        ) {
                            Ok(out) => Evaluation::Val(out),
                            Err(e) => Evaluation::Fail(e),
                        },
                        Evaluation::Empty => Evaluation::Fail(EvalError::TypeMismatch),
                        Evaluation::Fail(e) => Evaluation::Fail(e),
                    },
                    Evaluation::Empty => Evaluation::Fail(EvalError::TypeMismatch),
                    Evaluation::Fail(e) => Evaluation::Fail(e),
                }
            },
            None => {
                proof {
                    assert(opt_node_view(Option::None) is None);
                }
                Evaluation::Fail(EvalError::TypeMismatch)
            },
        },
        Node::BlockStatement { statements, .. } => eval_boxed_statements(statements.as_slice()),
        Node::IfExpression { condition, consequence, alternative, .. } => {
            match eval_node(condition) {
                Evaluation::Val(Value::Bool(b)) => {
                    if b.value {
                        eval_node(consequence)
                    } else {
                        match alternative {
                            Some(ab) => {
                                proof {
                                    assert(opt_node_view(node->IfExpression_alternative)
                                        matches Option::Some(x) && *x == node_view(**ab));
                                }
                                eval_node(ab)
                            },
                            None => {
                                proof {
                                    assert(opt_node_view(Option::None) is None);
                                }
                                Evaluation::Empty
                            },
                        }
                    }
                },
                Evaluation::Val(Value::Int(_)) => Evaluation::Fail(EvalError::TypeMismatch),
                Evaluation::Empty => Evaluation::Fail(EvalError::TypeMismatch),
                Evaluation::Fail(e) => Evaluation::Fail(e),
            }
        },
        _ => Evaluation::Empty,
    }
}

/// Evaluate a slice of boxed statements, last value wins, first failure
/// aborts.
pub fn eval_boxed_statements(statements: &[Box<Node>]) -> (r: Evaluation)
    ensures
        r == spec_eval_seq(boxed_nodes_view(statements@)),
    decreases statements@, 0int,
{
    let ghost all = boxed_nodes_view(statements@);
    proof {
        crate::ast::lemma_boxed_nodes_view_len(statements@);
    }
    let n = statements.len();
    let mut last = Evaluation::Empty;
    let mut i: usize = 0;
    proof {
        assert(all.skip(0) =~= all);
    }
    loop
        invariant
            all == boxed_nodes_view(statements@),
            all.len() == statements@.len(),
            forall|k: int| 0 <= k < all.len() ==> all[k] == node_view(*statements@[k]),
            n == statements@.len(),
            0 <= i <= n,
            n == 0 ==> last == Evaluation::Empty,
            spec_eval_seq(all) == (if i < n {
                spec_eval_seq(all.skip(i as int))
            } else if n == 0 {
                Evaluation::Empty
            } else {
                last
            }),
        ensures
            n == 0 ==> last == Evaluation::Empty,
            spec_eval_seq(all) == (if n == 0 {
                Evaluation::Empty
            } else {
                last
            }),
        decreases n - i,
    {
        if i >= n {
            break ;
        }
        let stmt: &Box<Node> = &statements[i];
        let ghost rest = all.skip(i as int);
        proof {
            assert(rest[0] == all[i as int]);
        }
        let e = eval_node(stmt);
        if matches!(e, Evaluation::Fail(_)) {
            proof {
                assert(spec_eval_seq(rest) == e);
            }
            return e;
        }
        proof {
            if i + 1 < n {
                assert(rest.drop_first() =~= all.skip(i as int + 1));
            }
        }
        last = e;
        i = i + 1;
    }
    last
}

/// Evaluate a slice of statements, last value wins, first failure aborts.
pub fn eval_statements(statements: &[Node]) -> (r: Evaluation)
    ensures
        r == spec_eval_seq(nodes_view(statements@)),
    decreases statements@, 0int,
{
    let ghost all = nodes_view(statements@);
    proof {
        crate::ast::lemma_nodes_view_len(statements@);
    }
    let n = statements.len();
    let mut last = Evaluation::Empty;
    let mut i: usize = 0;
    proof {
        assert(all.skip(0) =~= all);
    }
    loop
        invariant
            all == nodes_view(statements@),
            all.len() == statements@.len(),
            forall|k: int| 0 <= k < all.len() ==> all[k] == node_view(statements@[k]),
            n == statements@.len(),
            0 <= i <= n,
            n == 0 ==> last == Evaluation::Empty,
            spec_eval_seq(all) == (if i < n {
                spec_eval_seq(all.skip(i as int))
            } else if n == 0 {
                Evaluation::Empty
            } else {
                last
            }),
        ensures
            n == 0 ==> last == Evaluation::Empty,
            spec_eval_seq(all) == (if n == 0 {
                Evaluation::Empty
            } else {
                last
            }),
        decreases n - i,
    {
        if i >= n {
            break ;
        }
        let stmt: &Node = &statements[i];
        let ghost rest = all.skip(i as int);
        proof {
            assert(rest[0] == all[i as int]);
        }
        let e = eval_node(stmt);
        if matches!(e, Evaluation::Fail(_)) {
            proof {
                assert(spec_eval_seq(rest) == e);
            }
            return e;
        }
        proof {
            if i + 1 < n {
                assert(rest.drop_first() =~= all.skip(i as int + 1));
            }
        }
        last = e;
        i = i + 1;
    }
    last
}

/// Conditional selection over already-parsed branches: the condition must
/// reduce to a boolean, a false condition selects the alternative when one
/// exists and otherwise yields no value.
pub fn eval_if_condition(condition: &Node, consequence: &Node, alternative: Option<&Node>) -> (r:
    Evaluation)
    ensures
        r == spec_eval_if(
            condition@,
            consequence@,
            match alternative {
                Option::Some(a) => Option::Some(a@),
                Option::None => Option::None,
            },
        ),
{
    match eval_node(condition) {
        Evaluation::Val(Value::Bool(b)) => {
            if b.value {
                eval_node(consequence)
            } else {
                match alternative {
                    Some(a) => eval_node(a),
                    None => Evaluation::Empty,
                }
            }
        },
        Evaluation::Val(Value::Int(_)) => Evaluation::Fail(EvalError::TypeMismatch),
        Evaluation::Empty => Evaluation::Fail(EvalError::TypeMismatch),
        Evaluation::Fail(e) => Evaluation::Fail(e),
    }
}

/// Evaluate one node; failures and "no value" both collapse to `None`.
pub fn eval(node: &Node) -> (r: Option<Value>)
    ensures
        r == value_of(spec_eval(node@)),
{
    match eval_node(node) {
        Evaluation::Val(v) => Some(v),
        _ => None,
    }
}

/// Evaluate a program: its statements in order, the last one's value.
pub fn eval_program(program: Program) -> (r: Option<Value>)
    ensures
        r == value_of(spec_eval_seq(program@)),
{
    match eval_statements(program.statements.as_slice()) {
        Evaluation::Val(v) => Some(v),
        _ => None,
    }
}

} // verus!

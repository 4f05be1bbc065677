//! The round-trip law: re-parsing the rendering of an expression and
//! evaluating the result produces the same outcome as evaluating the
//! original tree.
//!
//! The proof walks the tree once. Every composite expression is rendered
//! parenthesized, so a rendering always parses as one prefix unit and the
//! infix loop stops at the delimiter that follows it. The single node kind
//! the parse does not reproduce structurally is a negative integer
//! literal, which comes back as unary minus applied to its magnitude; its
//! evaluation is unchanged, which is why the law speaks of outcomes rather
//! than of trees.

use crate::ast::SpecNode;
use crate::object::{Integer, Value};
use crate::evaluator::{spec_eval, spec_eval_prefix, spec_eval_seq, Evaluation};
use crate::parser::{
    infix_rank, operator_text, spec_infix_step, spec_parse_block, spec_parse_block_items,
    spec_parse_expression, spec_parse_expression_statement, spec_parse_infix_loop,
    spec_parse_prefix, spec_parse_prefix_op, spec_parse_program, spec_parse_statement, step_bound,
    Parsed, ParsedSeq,
};
use crate::render::{op_token, prefix_op_token, render_stmts, render_tokens};
use crate::token::TokenV;
use vstd::prelude::*;

verus! {

/// `r` occupies the positions `pos .. pos + r.len()` of `t`.
pub open spec fn seg_at(t: Seq<TokenV>, pos: int, r: Seq<TokenV>) -> bool {
    &&& 0 <= pos
    &&& pos + r.len() <= t.len()
    &&& forall|i: int| 0 <= i < r.len() ==> t[pos + i] == r[i]
}

/// A position where an expression may end: past the input, or at a
/// delimiter that no infix rule consumes.
pub open spec fn expr_stop(t: Seq<TokenV>, k: int) -> bool {
    k >= t.len() || t[k] is Rparen || t[k] is Rbrace || t[k] is Semicolon || t[k] is Comma
}

/// A token that can begin a rendered expression.
pub open spec fn starts_expression(tk: TokenV) -> bool {
    tk is Int || tk is Lparen || tk is True || tk is False || tk is If
}

/// A rendering is never empty, and a non-block rendering begins with a
/// token that has a prefix rule and is not a statement keyword.
pub proof fn lemma_render_shape(e: SpecNode)
    requires
        render_tokens(e) is Some,
        !(e is Block),
    ensures
        render_tokens(e)->Some_0.len() >= 1,
        starts_expression(render_tokens(e)->Some_0[0]),
{
    let r = render_tokens(e)->Some_0;
    match e {
        SpecNode::IntLit { value } => {
            if value >= 0 {
            } else {
                assert(r[0] == TokenV::Lparen);
            }
        },
        SpecNode::BoolLit { value } => {},
        SpecNode::Prefix { operator, right } => {
            let rt = render_tokens(*right->Some_0)->Some_0;
            assert(r == seq![TokenV::Lparen, prefix_op_token(operator)->Some_0] + rt + seq![
                TokenV::Rparen,
            ]);
            assert(r[0] == (seq![TokenV::Lparen, prefix_op_token(operator)->Some_0] + rt)[0]);
        },
        SpecNode::Infix { operator, left, right } => {
            let lt = render_tokens(*left)->Some_0;
            let rt = render_tokens(*right->Some_0)->Some_0;
            let op = op_token(operator)->Some_0;
            assert(r == seq![TokenV::Lparen] + lt + seq![op] + rt + seq![TokenV::Rparen]);
            assert(r[0] == ((seq![TokenV::Lparen] + lt + seq![op]) + rt)[0]);
            assert((seq![TokenV::Lparen] + lt + seq![op] + rt)[0] == ((seq![TokenV::Lparen] + lt)
                + seq![op])[0]);
            assert((seq![TokenV::Lparen] + lt + seq![op])[0] == (seq![TokenV::Lparen] + lt)[0]);
            assert((seq![TokenV::Lparen] + lt)[0] == TokenV::Lparen);
        },
        SpecNode::If { condition, consequence, alternative } => {
            let ct = render_tokens(*condition)->Some_0;
            let qt = render_tokens(*consequence)->Some_0;
            match alternative {
                Option::Some(a) => {
                    let at = render_tokens(*a)->Some_0;
                    assert(r == seq![TokenV::If, TokenV::Lparen] + ct + seq![TokenV::Rparen] + qt
                        + seq![TokenV::Else] + at);
                    assert(r[0] == ((((seq![TokenV::If, TokenV::Lparen] + ct) + seq![
                        TokenV::Rparen,
                    ]) + qt) + seq![TokenV::Else])[0]);
                    assert((((seq![TokenV::If, TokenV::Lparen] + ct) + seq![TokenV::Rparen]) + qt
                        + seq![TokenV::Else])[0] == (((seq![TokenV::If, TokenV::Lparen] + ct)
                        + seq![TokenV::Rparen]) + qt)[0]);
                    assert((((seq![TokenV::If, TokenV::Lparen] + ct) + seq![TokenV::Rparen])
                        + qt)[0] == ((seq![TokenV::If, TokenV::Lparen] + ct) + seq![
                        TokenV::Rparen,
                    ])[0]);
                    assert(((seq![TokenV::If, TokenV::Lparen] + ct) + seq![TokenV::Rparen])[0] == (
                    seq![TokenV::If, TokenV::Lparen] + ct)[0]);
                    assert((seq![TokenV::If, TokenV::Lparen] + ct)[0] == TokenV::If);
                },
                Option::None => {
                    assert(r == seq![TokenV::If, TokenV::Lparen] + ct + seq![TokenV::Rparen] + qt);
                    assert(r[0] == ((seq![TokenV::If, TokenV::Lparen] + ct) + seq![
                        TokenV::Rparen,
                    ])[0]);
                    assert(((seq![TokenV::If, TokenV::Lparen] + ct) + seq![TokenV::Rparen])[0] == (
                    seq![TokenV::If, TokenV::Lparen] + ct)[0]);
                    assert((seq![TokenV::If, TokenV::Lparen] + ct)[0] == TokenV::If);
                },
            }
        },
        _ => {},
    }
}

/// No delimiter that ends an expression carries an infix rule, so the
/// infix loop stops there whatever the minimum binding power.
pub proof fn lemma_stop_not_infix(t: Seq<TokenV>, k: int, min: int)
    requires
        expr_stop(t, k),
        0 <= k,
    ensures
        k < t.len() ==> !(crate::parser::has_infix(t[k]) && infix_rank(t[k]) > min),
{
}


/// The two operator tables invert each other: a prefix operator token
/// renders back to the operator name it came from.
pub proof fn lemma_prefix_op_text(op: Seq<char>)
    requires
        prefix_op_token(op) is Some,
    ensures
        operator_text(prefix_op_token(op)->Some_0) == op,
        prefix_op_token(op)->Some_0 is Minus || prefix_op_token(op)->Some_0 is Bang,
{
}

/// An infix operator token renders back to the operator name it came
/// from, is a binary operator, and binds strictly tighter than `Lowest`.
pub proof fn lemma_infix_op_text(op: Seq<char>)
    requires
        op_token(op) is Some,
    ensures
        operator_text(op_token(op)->Some_0) == op,
        crate::parser::is_binary_op(op_token(op)->Some_0),
        1 <= infix_rank(op_token(op)->Some_0) <= 4,
{
}

/// The content between the parentheses of a composite rendering.
pub open spec fn inner_tokens(e: SpecNode) -> Seq<TokenV> {
    let r = render_tokens(e)->Some_0;
    r.subrange(1, r.len() - 1)
}

/// Parsing a rendered expression at any minimum binding power consumes
/// exactly the rendering and evaluates to the original's outcome.
pub proof fn lemma_parse_rendered_expression(e: SpecNode, t: Seq<TokenV>, pos: int, min: int)
    requires
        render_tokens(e) is Some,
        !(e is Block),
        seg_at(t, pos, render_tokens(e)->Some_0),
        expr_stop(t, pos + render_tokens(e)->Some_0.len()),
    ensures
        spec_parse_expression(t, pos, min) matches Parsed::Found { node, next } && next == pos
            + render_tokens(e)->Some_0.len() && spec_eval(node) == spec_eval(e),
    decreases e, 3int,
{
    let r = render_tokens(e)->Some_0;
    lemma_render_shape(e);
    assert(t[pos + 0] == r[0]);
    lemma_parse_rendered_prefix(e, t, pos);
    let p2 = pos + r.len();
    let found = spec_parse_prefix(t, pos);
    assert(step_bound(t.len() as int, pos, p2) == p2);
    lemma_stop_not_infix(t, p2, min);
    assert(spec_parse_infix_loop(t, p2, min, found->node) == (Parsed::Found {
        node: found->node,
        next: p2,
    }));
}

/// Parsing the prefix unit of a rendered expression consumes exactly the
/// rendering, provided no `else` follows it (which would extend a
/// conditional without an alternative).
pub proof fn lemma_parse_rendered_prefix(e: SpecNode, t: Seq<TokenV>, pos: int)
    requires
        render_tokens(e) is Some,
        !(e is Block),
        seg_at(t, pos, render_tokens(e)->Some_0),
        !(pos + render_tokens(e)->Some_0.len() < t.len() && t[pos + render_tokens(
            e,
        )->Some_0.len()] is Else),
    ensures
        spec_parse_prefix(t, pos) matches Parsed::Found { node, next } && next == pos
            + render_tokens(e)->Some_0.len() && spec_eval(node) == spec_eval(e),
    decreases e, 2int,
{
    let r = render_tokens(e)->Some_0;
    let len = t.len() as int;
    assert(t[pos + 0] == r[0]);
    match e {
        SpecNode::IntLit { value } => {
            if value >= 0 {
                assert(r == seq![TokenV::Int(value)]);
            } else {
                let m = (-(value as int)) as i64;
                assert(r == seq![TokenV::Lparen, TokenV::Minus, TokenV::Int(m), TokenV::Rparen]);
                assert(inner_tokens(e) =~= seq![TokenV::Minus, TokenV::Int(m)]);
                assert(t[pos + 1] == r[1]);
                assert(t[pos + 2] == r[2]);
                assert(t[pos + 3] == r[3]);
                assert(seg_at(t, pos + 1, inner_tokens(e)));
                lemma_parse_rendered_group(e, t, pos + 1);
                let nb = step_bound(len, pos, pos + 3);
                assert(nb == pos + 3);
                assert(t[nb] is Rparen);
            }
        },
        SpecNode::BoolLit { value } => {
            if value {
                assert(r == seq![TokenV::True]);
            } else {
                assert(r == seq![TokenV::False]);
            }
        },
        SpecNode::Prefix { operator, right } => {
            let op = prefix_op_token(operator)->Some_0;
            let rt = render_tokens(*right->Some_0)->Some_0;
            assert(r == seq![TokenV::Lparen, op] + rt + seq![TokenV::Rparen]);
            assert(r.len() == 3 + rt.len());
            assert(inner_tokens(e) =~= seq![op] + rt);
            assert(seg_at(t, pos + 1, inner_tokens(e))) by {
                assert(forall|i: int|
                    0 <= i < inner_tokens(e).len() ==> t[pos + 1 + i] == r[1 + i]
                        && r[1 + i] == inner_tokens(e)[i]);
            }
            assert(t[pos + (r.len() - 1)] == r[r.len() - 1]);
            assert(r[r.len() - 1] == (seq![TokenV::Rparen])[0]);
            lemma_parse_rendered_group(e, t, pos + 1);
            let nb = step_bound(len, pos, pos + 1 + inner_tokens(e).len());
            assert(nb == pos + r.len() - 1);
            assert(t[nb] is Rparen);
        },
        SpecNode::Infix { operator, left, right } => {
            let op = op_token(operator)->Some_0;
            let lt = render_tokens(*left)->Some_0;
            let rt = render_tokens(*right->Some_0)->Some_0;
            assert(r == seq![TokenV::Lparen] + lt + seq![op] + rt + seq![TokenV::Rparen]);
            assert(r.len() == 3 + lt.len() + rt.len());
            assert(inner_tokens(e) =~= lt + seq![op] + rt) by {
                assert(forall|i: int|
                    0 <= i < r.len() - 2 ==> inner_tokens(e)[i] == r[1 + i]);
                assert(forall|i: int| 0 <= i < lt.len() ==> r[1 + i] == lt[i]);
                assert(r[1 + lt.len() as int] == op);
                assert(forall|i: int|
                    0 <= i < rt.len() ==> r[2 + lt.len() + i] == rt[i]);
                assert(forall|i: int|
                    0 <= i < lt.len() ==> (lt + seq![op] + rt)[i] == lt[i]);
                assert((lt + seq![op] + rt)[lt.len() as int] == op);
                assert(forall|i: int|
                    0 <= i < rt.len() ==> (lt + seq![op] + rt)[lt.len() + 1 + i] == rt[i]);
            }
            assert(seg_at(t, pos + 1, inner_tokens(e))) by {
                assert(forall|i: int|
                    0 <= i < inner_tokens(e).len() ==> t[pos + 1 + i] == r[1 + i]
                        && r[1 + i] == inner_tokens(e)[i]);
            }
            assert(t[pos + (r.len() - 1)] == r[r.len() - 1]);
            assert(r[r.len() - 1] == (seq![TokenV::Rparen])[0]);
            lemma_parse_rendered_group(e, t, pos + 1);
            let nb = step_bound(len, pos, pos + 1 + inner_tokens(e).len());
            assert(nb == pos + r.len() - 1);
            assert(t[nb] is Rparen);
        },
        SpecNode::If { condition, consequence, alternative } => {
            lemma_parse_rendered_if(e, t, pos);
        },
        _ => {},
    }
}

/// Parsing a rendered conditional consumes exactly the rendering.
pub proof fn lemma_parse_rendered_if(e: SpecNode, t: Seq<TokenV>, pos: int)
    requires
        e is If,
        render_tokens(e) is Some,
        seg_at(t, pos, render_tokens(e)->Some_0),
        !(pos + render_tokens(e)->Some_0.len() < t.len() && t[pos + render_tokens(
            e,
        )->Some_0.len()] is Else),
    ensures
        spec_parse_prefix(t, pos) matches Parsed::Found { node, next } && next == pos
            + render_tokens(e)->Some_0.len() && spec_eval(node) == spec_eval(e),
    decreases e, 1int,
{
    let r = render_tokens(e)->Some_0;
    let len = t.len() as int;
    let condition = e->condition;
    let consequence = e->consequence;
    let alternative = e->alternative;
    let ct = render_tokens(*condition)->Some_0;
    let qt = render_tokens(*consequence)->Some_0;
    let head = seq![TokenV::If, TokenV::Lparen] + ct + seq![TokenV::Rparen] + qt;
    lemma_render_shape(*condition);
    match alternative {
        Option::Some(a) => {
            let at = render_tokens(*a)->Some_0;
            assert(r == head + seq![TokenV::Else] + at);
            assert(head.len() == 3 + ct.len() + qt.len());
            assert(r.len() == head.len() + 1 + at.len());
            assert(r.len() == 4 + ct.len() + qt.len() + at.len());
            assert(forall|i: int| 0 <= i < head.len() ==> r[i] == head[i]);
            assert(r[head.len() as int] == TokenV::Else);
            assert(forall|i: int| 0 <= i < at.len() ==> r[head.len() + 1 + i] == at[i]);
        },
        Option::None => {
            assert(r == head);
        },
    }
    assert(forall|i: int|
        0 <= i < ct.len() ==> head[2 + i] == ct[i] && r[2 + i] == head[2 + i]);
    assert(head[0] == TokenV::If && r[0] == head[0]);
    assert(head[1] == TokenV::Lparen && r[1] == head[1]);
    assert(head[2 + ct.len() as int] == TokenV::Rparen && r[2 + ct.len() as int] == head[2 + ct.len() as int]);
    assert(forall|i: int|
        0 <= i < qt.len() ==> head[3 + ct.len() + i] == qt[i] && r[3 + ct.len() + i] == head[3
            + ct.len() + i]);
    assert(t[pos + 0] == r[0]);
    assert(t[pos + 1] == r[1]);
    // the condition, between the parentheses
    assert(seg_at(t, pos + 2, ct)) by {
        assert(forall|i: int| 0 <= i < ct.len() ==> t[pos + 2 + i] == r[2 + i] && r[2 + i]
            == #[trigger] ct[i]);
    }
    assert(t[pos + 2 + ct.len() as int] == r[2 + ct.len() as int]);
    lemma_parse_rendered_expression(*condition, t, pos + 2, 0);
    let nb = step_bound(len, pos, pos + 2 + ct.len());
    assert(nb == pos + 2 + ct.len());
    assert(t[nb] is Rparen);
    // the consequence block
    assert(seg_at(t, nb + 1, qt)) by {
        assert(forall|i: int| 0 <= i < qt.len() ==> t[pos + 3 + ct.len() + i] == r[3 + ct.len()
            + i] && r[3 + ct.len() + i] == #[trigger] qt[i]);
    }
    lemma_render_shape_block(*consequence);
    assert(t[nb + 1] == r[3 + ct.len() as int]);
    assert(t[nb + 1] is Lbrace);
    lemma_parse_rendered_block(*consequence, t, nb + 1);
    let after_q = nb + 1 + qt.len();
    let eb = step_bound(len, pos, after_q);
    assert(eb == after_q);
    match alternative {
        Option::Some(a) => {
            let at = render_tokens(*a)->Some_0;
            assert(t[eb] == r[3 + ct.len() as int + qt.len() as int]);
            assert(t[eb] is Else);
            assert(seg_at(t, eb + 1, at)) by {
                assert(forall|i: int| 0 <= i < at.len() ==> t[pos + 4 + ct.len() + qt.len() + i]
                    == r[4 + ct.len() + qt.len() + i] && r[4 + ct.len() + qt.len() + i]
                    == #[trigger] at[i]);
            }
            lemma_render_shape_block(*a);
            assert(t[eb + 1] is Lbrace);
            lemma_parse_rendered_block(*a, t, eb + 1);
        },
        Option::None => {
            assert(after_q == pos + r.len());
            assert(!(eb < len && t[eb] is Else));
        },
    }
}

/// A rendered block begins with `{`.
pub proof fn lemma_render_shape_block(b: SpecNode)
    requires
        b is Block,
        render_tokens(b) is Some,
    ensures
        render_tokens(b)->Some_0.len() >= 2,
        render_tokens(b)->Some_0[0] is Lbrace,
        render_tokens(b)->Some_0[render_tokens(b)->Some_0.len() - 1] is Rbrace,
{
    let inner = render_stmts(b->statements)->Some_0;
    let r = render_tokens(b)->Some_0;
    assert(r == seq![TokenV::Lbrace] + inner + seq![TokenV::Rbrace]);
    assert(r[0] == (seq![TokenV::Lbrace] + inner)[0]);
}

/// Parsing the grouped content of a parenthesized rendering: a prefix or
/// infix expression, or a negated integer literal, read back at lowest
/// binding power up to the closing parenthesis.
#[verifier::rlimit(100)]
pub proof fn lemma_parse_rendered_group(e: SpecNode, t: Seq<TokenV>, q: int)
    requires
        e is IntLit || e is Prefix || e is Infix,
        e matches SpecNode::IntLit { value } ==> value < 0 && value != i64::MIN,
        render_tokens(e) is Some,
        seg_at(t, q, inner_tokens(e)),
        expr_stop(t, q + inner_tokens(e).len()),
    ensures
        spec_parse_expression(t, q, 0) matches Parsed::Found { node, next } && next == q
            + inner_tokens(e).len() && spec_eval(node) == spec_eval(e),
    decreases e, 1int,
{
    let len = t.len() as int;
    let inner = inner_tokens(e);
    match e {
        SpecNode::IntLit { value } => {
            let m = (-(value as int)) as i64;
            let r = render_tokens(e)->Some_0;
            assert(r == seq![TokenV::Lparen, TokenV::Minus, TokenV::Int(m), TokenV::Rparen]);
            assert(inner =~= seq![TokenV::Minus, TokenV::Int(m)]);
            assert(t[q + 0] == inner[0]);
            assert(t[q + 1] == inner[1]);
            // - m parses as unary minus applied to the magnitude
            assert(spec_parse_prefix(t, q + 1) == (Parsed::Found {
                node: (SpecNode::IntLit { value: m }),
                next: q + 2,
            }));
            lemma_stop_not_infix(t, q + 2, 5);
            assert(step_bound(len, q + 1, q + 2) == q + 2);
            assert(spec_parse_expression(t, q + 1, 5) == (Parsed::Found {
                node: (SpecNode::IntLit { value: m }),
                next: q + 2,
            }));
            assert(spec_parse_prefix_op(t, q) == (Parsed::Found {
                node: (SpecNode::Prefix {
                    operator: operator_text(TokenV::Minus),
                    right: Option::Some(Box::new(SpecNode::IntLit { value: m })),
                }),
                next: q + 2,
            }));
            lemma_stop_not_infix(t, q + 2, 0);
            assert(step_bound(len, q, q + 2) == q + 2);
            let node = SpecNode::Prefix {
                operator: operator_text(TokenV::Minus),
                right: Option::Some(Box::new(SpecNode::IntLit { value: m })),
            };
            assert(spec_parse_expression(t, q, 0) == (Parsed::Found { node, next: q + 2 }));
            // evaluating the negation restores the original value
            proof_eval_negated_literal(value, m);
        },
        SpecNode::Prefix { operator, right } => {
            let op = prefix_op_token(operator)->Some_0;
            let rr = *right->Some_0;
            let rt = render_tokens(rr)->Some_0;
            let r = render_tokens(e)->Some_0;
            assert(r == seq![TokenV::Lparen, op] + rt + seq![TokenV::Rparen]);
            assert(inner =~= seq![op] + rt) by {
                assert(forall|i: int| 0 <= i < inner.len() ==> inner[i] == r[1 + i]);
                assert(r[1] == op);
                assert(forall|i: int| 0 <= i < rt.len() ==> r[2 + i] == rt[i]);
                assert((seq![op] + rt)[0] == op);
                assert(forall|i: int| 0 <= i < rt.len() ==> (seq![op] + rt)[1 + i] == rt[i]);
            }
            assert(t[q + 0] == inner[0]);
            lemma_prefix_op_text(operator);
            assert(seg_at(t, q + 1, rt)) by {
                assert(forall|i: int| 0 <= i < rt.len() ==> t[q + 1 + i] == inner[1 + i]
                    && inner[1 + i] == rt[i]);
            }
            lemma_parse_rendered_expression(rr, t, q + 1, 5);
            let rp = spec_parse_expression(t, q + 1, 5);
            assert(spec_parse_prefix_op(t, q) == (Parsed::Found {
                node: (SpecNode::Prefix {
                    operator,
                    right: Option::Some(Box::new(rp->node)),
                }),
                next: q + inner.len(),
            }));
            lemma_stop_not_infix(t, q + inner.len(), 0);
            assert(step_bound(len, q, q + inner.len()) == q + inner.len());
            let node = SpecNode::Prefix { operator, right: Option::Some(Box::new(rp->node)) };
            assert(spec_parse_expression(t, q, 0) == (Parsed::Found {
                node,
                next: q + inner.len(),
            }));
            assert(spec_eval(node) == spec_eval_prefix(operator, spec_eval(rp->node)));
            assert(spec_eval(e) == spec_eval_prefix(operator, spec_eval(rr)));
        },
        SpecNode::Infix { operator, left, right } => {
            let op = op_token(operator)->Some_0;
            let rr = *right->Some_0;
            let lt = render_tokens(*left)->Some_0;
            let rt = render_tokens(rr)->Some_0;
            let r = render_tokens(e)->Some_0;
            assert(r == seq![TokenV::Lparen] + lt + seq![op] + rt + seq![TokenV::Rparen]);
            assert(r.len() == 3 + lt.len() + rt.len());
            assert(inner =~= lt + seq![op] + rt) by {
                assert(forall|i: int| 0 <= i < inner.len() ==> inner[i] == r[1 + i]);
                assert(forall|i: int| 0 <= i < lt.len() ==> r[1 + i] == lt[i]);
                assert(r[1 + lt.len() as int] == op);
                assert(forall|i: int| 0 <= i < rt.len() ==> r[2 + lt.len() + i] == rt[i]);
                assert(forall|i: int| 0 <= i < lt.len() ==> (lt + seq![op] + rt)[i] == lt[i]);
                assert((lt + seq![op] + rt)[lt.len() as int] == op);
                assert(forall|i: int|
                    0 <= i < rt.len() ==> (lt + seq![op] + rt)[lt.len() + 1 + i] == rt[i]);
            }
            lemma_infix_op_text(operator);
            assert(seg_at(t, q, lt)) by {
                assert(forall|i: int| 0 <= i < lt.len() ==> t[q + i] == inner[i] && inner[i]
                    == lt[i]);
            }
            assert(t[q + lt.len()] == inner[lt.len() as int]);
            assert(t[q + lt.len()] == op);
            lemma_parse_rendered_prefix(*left, t, q);
            let lp = spec_parse_prefix(t, q);
            let opp = q + lt.len();
            assert(step_bound(len, q, opp) == opp) by {
                lemma_render_shape(*left);
            }
            // the infix loop takes exactly one step
            assert(seg_at(t, opp + 1, rt)) by {
                assert(forall|i: int| 0 <= i < rt.len() ==> t[q + lt.len() + 1 + i] == inner[
                    lt.len() + 1 + i] && inner[lt.len() + 1 + i] == rt[i]);
            }
            assert(expr_stop(t, opp + 1 + rt.len()));
            lemma_parse_rendered_expression(rr, t, opp + 1, infix_rank(op));
            let rp = spec_parse_expression(t, opp + 1, infix_rank(op));
            let stepped = SpecNode::Infix {
                operator,
                left: Box::new(lp->node),
                right: Option::Some(Box::new(rp->node)),
            };
            assert(spec_infix_step(t, opp, lp->node) == (Parsed::Found {
                node: stepped,
                next: q + inner.len(),
            }));
            lemma_stop_not_infix(t, q + inner.len(), 0);
            assert(step_bound(len, opp, q + inner.len()) == q + inner.len());
            assert(spec_parse_infix_loop(t, q + inner.len(), 0, stepped) == (Parsed::Found {
                node: stepped,
                next: q + inner.len(),
            }));
            assert(spec_parse_infix_loop(t, opp, 0, lp->node) == (Parsed::Found {
                node: stepped,
                next: q + inner.len(),
            }));
            assert(spec_parse_expression(t, q, 0) == (Parsed::Found {
                node: stepped,
                next: q + inner.len(),
            }));
            assert(spec_eval(stepped) == crate::evaluator::spec_eval_infix(
                operator,
                spec_eval(lp->node),
                spec_eval(rp->node),
            ));
            assert(spec_eval(e) == crate::evaluator::spec_eval_infix(
                operator,
                spec_eval(*left),
                spec_eval(rr),
            ));
        },
        _ => {},
    }
}

/// Negating the rendered magnitude restores a negative literal's value.
proof fn proof_eval_negated_literal(value: i64, m: i64)
    requires
        value < 0,
        value != i64::MIN,
        m == (-(value as int)) as i64,
    ensures
        spec_eval(
            SpecNode::Prefix {
                operator: operator_text(TokenV::Minus),
                right: Option::Some(Box::new(SpecNode::IntLit { value: m })),
            },
        ) == spec_eval(SpecNode::IntLit { value }),
{
    reveal_strlit("PLUS");
    reveal_strlit("MINUS");
    assert("PLUS"@.len() == 4);
    assert("MINUS"@.len() == 5);
    assert("MINUS"@ != "PLUS"@);
    assert(crate::evaluator::spec_op("MINUS"@) is Minus);
    assert(crate::evaluator::spec_neg_i64(m) == value);
    assert(spec_eval(SpecNode::IntLit { value: m }) == Evaluation::Val(
        Value::Int(Integer { value: m }),
    ));
    assert(spec_eval(SpecNode::IntLit { value }) == Evaluation::Val(
        Value::Int(Integer { value }),
    ));
}

/// Parsing a rendered block consumes exactly the rendering and evaluates
/// to the same outcome.
pub proof fn lemma_parse_rendered_block(b: SpecNode, t: Seq<TokenV>, pos: int)
    requires
        b is Block,
        render_tokens(b) is Some,
        seg_at(t, pos, render_tokens(b)->Some_0),
    ensures
        spec_parse_block(t, pos) matches Parsed::Found { node, next } && next == pos
            + render_tokens(b)->Some_0.len() && spec_eval(node) == spec_eval(b),
    decreases b, 1int,
{
    let r = render_tokens(b)->Some_0;
    let stmts = b->statements;
    let inner = render_stmts(stmts)->Some_0;
    assert(r == seq![TokenV::Lbrace] + inner + seq![TokenV::Rbrace]);
    assert(r.len() == 2 + inner.len());
    assert(r[0] == ((seq![TokenV::Lbrace] + inner))[0]);
    assert(t[pos + 0] == r[0]);
    assert(seg_at(t, pos + 1, inner)) by {
        assert(forall|i: int| 0 <= i < inner.len() ==> t[pos + 1 + i] == r[1 + i] && r[1 + i]
            == inner[i]);
    }
    assert(t[pos + (r.len() - 1)] == r[r.len() - 1]);
    lemma_parse_rendered_items(stmts, t, pos + 1);
    assert(spec_eval(b) == spec_eval_seq(stmts));
}

/// Parsing rendered statements up to the closing brace reproduces a
/// statement list with the same evaluation, statement by statement.
pub proof fn lemma_parse_rendered_items(stmts: Seq<SpecNode>, t: Seq<TokenV>, pos: int)
    requires
        render_stmts(stmts) is Some,
        seg_at(t, pos, render_stmts(stmts)->Some_0),
        pos + render_stmts(stmts)->Some_0.len() < t.len(),
        t[pos + render_stmts(stmts)->Some_0.len()] is Rbrace,
    ensures
        spec_parse_block_items(t, pos) matches ParsedSeq::FoundSeq { nodes, next } && next == pos
            + render_stmts(stmts)->Some_0.len() + 1 && nodes.len() == stmts.len()
            && spec_eval_seq(nodes) == spec_eval_seq(stmts),
    decreases stmts, 2int,
{
    let len = t.len() as int;
    let inner = render_stmts(stmts)->Some_0;
    if stmts.len() == 0 {
        assert(inner =~= Seq::<TokenV>::empty());
        assert(t[pos + 0] is Rbrace);
        assert(spec_parse_block_items(t, pos) == (ParsedSeq::FoundSeq {
            nodes: Seq::<SpecNode>::empty(),
            next: pos + 1,
        }));
    } else {
        let s0 = stmts[0];
        let h = render_tokens(s0)->Some_0;
        let tl = render_stmts(stmts.drop_first())->Some_0;
        assert(inner == h + seq![TokenV::Semicolon] + tl);
        assert(inner.len() == h.len() + 1 + tl.len());
        assert(seg_at(t, pos, h)) by {
            assert(forall|i: int| 0 <= i < h.len() ==> t[pos + i] == inner[i] && inner[i]
                == h[i]);
        }
        assert(t[pos + h.len()] == inner[h.len() as int]);
        assert(t[pos + h.len()] is Semicolon);
        lemma_render_shape(s0);
        assert(t[pos + 0] == h[0]);
        // the statement dispatches to the expression-statement rule
        lemma_parse_rendered_expression(s0, t, pos, 0);
        let sp = spec_parse_expression(t, pos, 0);
        let nb = step_bound(len, pos, pos + h.len());
        assert(nb == pos + h.len());
        assert(spec_parse_expression_statement(t, pos) == (Parsed::Found {
            node: sp->node,
            next: pos + h.len() + 1,
        }));
        assert(spec_parse_statement(t, pos) == (Parsed::Found {
            node: sp->node,
            next: pos + h.len() + 1,
        }));
        let p2 = pos + h.len() + 1;
        assert(seg_at(t, p2, tl)) by {
            assert(forall|i: int| 0 <= i < tl.len() ==> t[pos + h.len() + 1 + i] == inner[h.len()
                + 1 + i] && inner[h.len() + 1 + i] == tl[i]);
        }
        assert(stmts.drop_first()[0] == stmts[1] || stmts.len() == 1);
        lemma_parse_rendered_items(stmts.drop_first(), t, p2);
        assert(step_bound(len, pos, p2) == p2);
        let rest = spec_parse_block_items(t, p2);
        let nodes = seq![sp->node] + rest->nodes;
        assert(spec_parse_block_items(t, pos) == (ParsedSeq::FoundSeq {
            nodes,
            next: pos + inner.len() + 1,
        }));
        // evaluation agrees statement by statement
        assert(nodes[0] == sp->node);
        assert(nodes.drop_first() =~= rest->nodes);
        assert(nodes.len() == stmts.len());
        assert(spec_eval_seq(nodes) == spec_eval_seq(stmts)) by {
            assert(spec_eval(nodes[0]) == spec_eval(stmts[0]));
            if stmts.len() == 1 {
                assert(nodes.len() == 1);
            } else {
                assert(spec_eval_seq(nodes.drop_first()) == spec_eval_seq(stmts.drop_first()));
            }
        }
    }
}

/// Re-parsing the token rendering of an expression yields a tree with the
/// same evaluation: the round-trip law at the token level.
pub proof fn lemma_round_trip_tokens(e: SpecNode)
    requires
        render_tokens(e) is Some,
        !(e is Block),
    ensures
        ({
            let toks = render_tokens(e)->Some_0;
            spec_parse_expression(toks, 0, 0) matches Parsed::Found { node, next } && next
                == toks.len() && spec_eval(node) == spec_eval(e)
        }),
{
    let toks = render_tokens(e)->Some_0;
    assert(seg_at(toks, 0, toks));
    assert(expr_stop(toks, toks.len() as int));
    lemma_parse_rendered_expression(e, toks, 0, 0);
}

/// Re-parsing the token rendering of an expression as a whole program
/// succeeds and evaluates to the original expression's outcome.
pub proof fn lemma_round_trip_program(e: SpecNode)
    requires
        render_tokens(e) is Some,
        !(e is Block),
    ensures
        ({
            let toks = render_tokens(e)->Some_0;
            &&& spec_parse_program(toks, 0).1 is None
            &&& spec_eval_seq(spec_parse_program(toks, 0).0) == spec_eval(e)
        }),
{
    let toks = render_tokens(e)->Some_0;
    let len = toks.len() as int;
    lemma_render_shape(e);
    lemma_round_trip_tokens(e);
    let sp = spec_parse_expression(toks, 0, 0);
    let nb = step_bound(len, 0, len);
    assert(nb == len);
    assert(spec_parse_expression_statement(toks, 0) == (Parsed::Found {
        node: sp->node,
        next: len,
    }));
    assert(toks[0int + 0] == toks[0int]);
    assert(spec_parse_statement(toks, 0) == (Parsed::Found { node: sp->node, next: len }));
    assert(step_bound(len, 0, len) == len);
    assert(spec_parse_program(toks, len).0 =~= Seq::<SpecNode>::empty());
    let nodes = seq![sp->node] + spec_parse_program(toks, len).0;
    assert(spec_parse_program(toks, 0).0 == nodes);
    assert(nodes =~= seq![sp->node]);
    assert(spec_eval_seq(nodes) == spec_eval(sp->node));
}


/// `w` occupies the positions `pos .. pos + w.len()` of `s`.
pub open spec fn seg_chars(s: Seq<char>, pos: int, w: Seq<char>) -> bool {
    &&& 0 <= pos
    &&& pos + w.len() <= s.len()
    &&& forall|i: int| 0 <= i < w.len() ==> s[pos + i] == w[i]
}

/// A token the lexer reads back from its own text: everything a rendering
/// can contain.
pub open spec fn lexable(tk: TokenV) -> bool {
    match tk {
        TokenV::Int(v) => v >= 0,
        TokenV::Lparen => true,
        TokenV::Rparen => true,
        TokenV::Lbrace => true,
        TokenV::Rbrace => true,
        TokenV::Semicolon => true,
        TokenV::Plus => true,
        TokenV::Minus => true,
        TokenV::Bang => true,
        TokenV::Asterisk => true,
        TokenV::Slash => true,
        TokenV::Gt => true,
        TokenV::Lt => true,
        TokenV::Equal => true,
        TokenV::NotEqual => true,
        TokenV::If => true,
        TokenV::Else => true,
        TokenV::True => true,
        TokenV::False => true,
        _ => false,
    }
}

/// Each decimal digit character carries its own value back.
pub proof fn lemma_dec_digit_val(d: int)
    requires
        0 <= d <= 9,
    ensures
        crate::lexer::is_digit(crate::object::dec_digit(d)),
        crate::lexer::digit_val(crate::object::dec_digit(d)) == d,
{
}

/// A decimal rendering consists of digits and reads back to its value.
pub proof fn lemma_dec_chars_round_trip(n: nat)
    ensures
        crate::object::dec_chars_nat(n).len() >= 1,
        forall|i: int|
            0 <= i < crate::object::dec_chars_nat(n).len() ==> crate::lexer::is_digit(
                #[trigger] crate::object::dec_chars_nat(n)[i],
            ),
        crate::lexer::digits_val(crate::object::dec_chars_nat(n)) == n,
    decreases n,
{
    let w = crate::object::dec_chars_nat(n);
    if n < 10 {
        lemma_dec_digit_val(n as int);
        assert(w == seq![crate::object::dec_digit(n as int)]);
        assert(w.drop_last() =~= Seq::<char>::empty());
        assert(crate::lexer::digits_val(w) == crate::lexer::digits_val(w.drop_last()) * 10
            + crate::lexer::digit_val(w.last()));
    } else {
        lemma_dec_chars_round_trip(n / 10);
        lemma_dec_digit_val((n % 10) as int);
        let h = crate::object::dec_chars_nat(n / 10);
        let d = crate::object::dec_digit(n as int % 10);
        assert(w == h + seq![d]);
        assert(w.last() == d);
        assert(w.drop_last() =~= h);
        assert(crate::lexer::digits_val(w) == crate::lexer::digits_val(h) * 10
            + crate::lexer::digit_val(d));
        assert(forall|i: int| 0 <= i < h.len() ==> w[i] == #[trigger] h[i]);
    }
}

/// Scanning identifier characters stops exactly at the first character
/// that cannot continue an identifier.
pub proof fn lemma_scan_ident(s: Seq<char>, p: int, e: int)
    requires
        0 <= p <= e <= s.len(),
        forall|j: int| p <= j < e ==> crate::lexer::is_ident_char(#[trigger] s[j]),
        e == s.len() || !crate::lexer::is_ident_char(s[e]),
    ensures
        crate::lexer::ident_end(s, p) == e,
    decreases e - p,
{
    if p < e {
        lemma_scan_ident(s, p + 1, e);
    }
}

/// Scanning digits stops exactly at the first non-digit.
pub proof fn lemma_scan_number(s: Seq<char>, p: int, e: int)
    requires
        0 <= p <= e <= s.len(),
        forall|j: int| p <= j < e ==> crate::lexer::is_digit(#[trigger] s[j]),
        e == s.len() || !crate::lexer::is_digit(s[e]),
    ensures
        crate::lexer::number_end(s, p) == e,
    decreases e - p,
{
    if p < e {
        lemma_scan_number(s, p + 1, e);
    }
}

/// Whitespace skipping crosses at most the one separating space.
pub proof fn lemma_skip_one_space(s: Seq<char>, pos: int, p0: int)
    requires
        0 <= pos,
        p0 == pos || (p0 == pos + 1 && pos < s.len() && s[pos] == ' '),
        p0 <= s.len(),
        p0 == s.len() || !crate::lexer::is_ws(s[p0]),
    ensures
        crate::lexer::skip_ws(s, pos) == p0,
{
    if p0 == pos + 1 {
        assert(crate::lexer::skip_ws(s, pos + 1) == p0);
    }
}


/// Reading one rendered token from its own text, optionally preceded by
/// the single separating space, yields that token back and stops exactly
/// at its end.
#[verifier::rlimit(100)]
pub proof fn lemma_lex_one(tk: TokenV, s: Seq<char>, pos: int, leading: bool)
    requires
        lexable(tk),
        0 <= pos,
        leading ==> pos < s.len() && s[pos] == ' ',
        seg_chars(
            s,
            pos + (if leading { 1int } else { 0int }),
            crate::render::token_text(tk),
        ),
        ({
            let p1 = pos + (if leading { 1int } else { 0int }) + crate::render::token_text(
                tk,
            ).len();
            p1 == s.len() || s[p1] == ' '
        }),
    ensures
        crate::render::token_text(tk).len() >= 1,
        crate::lexer::spec_next_token(s, pos) == Option::Some(
            (tk, pos + (if leading { 1int } else { 0int }) + crate::render::token_text(tk).len()),
        ),
{
    let p0 = pos + (if leading { 1int } else { 0int });
    let w = crate::render::token_text(tk);
    reveal_strlit("(");
    reveal_strlit(")");
    reveal_strlit("{");
    reveal_strlit("}");
    reveal_strlit(";");
    reveal_strlit("+");
    reveal_strlit("-");
    reveal_strlit("!");
    reveal_strlit("*");
    reveal_strlit("/");
    reveal_strlit(">");
    reveal_strlit("<");
    reveal_strlit("==");
    reveal_strlit("!=");
    reveal_strlit("if");
    reveal_strlit("else");
    reveal_strlit("true");
    reveal_strlit("false");
    reveal_strlit("let");
    reveal_strlit("fn");
    reveal_strlit("while");
    reveal_strlit("for");
    reveal_strlit("loop");
    reveal_strlit("return");
    match tk {
        TokenV::Lparen => {
            assert(w == "("@);
            assert(w.len() == 1);
            assert(s[p0 + 0] == w[0]);
            assert(!crate::lexer::is_ws(s[p0]));
            lemma_skip_one_space(s, pos, p0);
        },
        TokenV::Rparen => {
            assert(w == ")"@);
            assert(w.len() == 1);
            assert(s[p0 + 0] == w[0]);
            assert(!crate::lexer::is_ws(s[p0]));
            lemma_skip_one_space(s, pos, p0);
        },
        TokenV::Lbrace => {
            assert(w == "{"@);
            assert(w.len() == 1);
            assert(s[p0 + 0] == w[0]);
            assert(!crate::lexer::is_ws(s[p0]));
            lemma_skip_one_space(s, pos, p0);
        },
        TokenV::Rbrace => {
            assert(w == "}"@);
            assert(w.len() == 1);
            assert(s[p0 + 0] == w[0]);
            assert(!crate::lexer::is_ws(s[p0]));
            lemma_skip_one_space(s, pos, p0);
        },
        TokenV::Semicolon => {
            assert(w == ";"@);
            assert(w.len() == 1);
            assert(s[p0 + 0] == w[0]);
            assert(!crate::lexer::is_ws(s[p0]));
            lemma_skip_one_space(s, pos, p0);
        },
        TokenV::Plus => {
            assert(w == "+"@);
            assert(w.len() == 1);
            assert(s[p0 + 0] == w[0]);
            assert(!crate::lexer::is_ws(s[p0]));
            lemma_skip_one_space(s, pos, p0);
        },
        TokenV::Minus => {
            assert(w == "-"@);
            assert(w.len() == 1);
            assert(s[p0 + 0] == w[0]);
            assert(!crate::lexer::is_ws(s[p0]));
            lemma_skip_one_space(s, pos, p0);
        },
        TokenV::Asterisk => {
            assert(w == "*"@);
            assert(w.len() == 1);
            assert(s[p0 + 0] == w[0]);
            assert(!crate::lexer::is_ws(s[p0]));
            lemma_skip_one_space(s, pos, p0);
        },
        TokenV::Slash => {
            assert(w == "/"@);
            assert(w.len() == 1);
            assert(s[p0 + 0] == w[0]);
            assert(!crate::lexer::is_ws(s[p0]));
            lemma_skip_one_space(s, pos, p0);
        },
        TokenV::Gt => {
            assert(w == ">"@);
            assert(w.len() == 1);
            assert(s[p0 + 0] == w[0]);
            assert(!crate::lexer::is_ws(s[p0]));
            lemma_skip_one_space(s, pos, p0);
        },
        TokenV::Lt => {
            assert(w == "<"@);
            assert(w.len() == 1);
            assert(s[p0 + 0] == w[0]);
            assert(!crate::lexer::is_ws(s[p0]));
            lemma_skip_one_space(s, pos, p0);
        },
        TokenV::If => {
            assert(w == "if"@);
            assert(w.len() == 2);
            assert(s[p0 + 0] == w[0]);
            assert(forall|i: int| 0 <= i < w.len() ==> crate::lexer::is_ident_char(
                #[trigger] w[i],
            )) by {
                assert(w[0] == 'i');
                assert(w[1] == 'f');
            }
            assert(!crate::lexer::is_ws(s[p0]));
            lemma_skip_one_space(s, pos, p0);
            assert forall|j: int| p0 <= j < p0 + w.len() implies crate::lexer::is_ident_char(
                s[j],
            ) by {
                let i = j - p0;
                assert(s[p0 + i] == w[i]);
                assert(crate::lexer::is_ident_char(w[i]));
            }
            lemma_scan_ident(s, p0, p0 + w.len());
            assert(s.subrange(p0, p0 + w.len()) =~= w);
        },
        TokenV::Else => {
            assert(w == "else"@);
            assert(w.len() == 4);
            assert(s[p0 + 0] == w[0]);
            assert(forall|i: int| 0 <= i < w.len() ==> crate::lexer::is_ident_char(
                #[trigger] w[i],
            )) by {
                assert(w[0] == 'e');
                assert(w[1] == 'l');
                assert(w[2] == 's');
                assert(w[3] == 'e');
            }
            assert(!crate::lexer::is_ws(s[p0]));
            lemma_skip_one_space(s, pos, p0);
            assert forall|j: int| p0 <= j < p0 + w.len() implies crate::lexer::is_ident_char(
                s[j],
            ) by {
                let i = j - p0;
                assert(s[p0 + i] == w[i]);
                assert(crate::lexer::is_ident_char(w[i]));
            }
            lemma_scan_ident(s, p0, p0 + w.len());
            assert(s.subrange(p0, p0 + w.len()) =~= w);
        },
        TokenV::True => {
            assert(w == "true"@);
            assert(w.len() == 4);
            assert(s[p0 + 0] == w[0]);
            assert(forall|i: int| 0 <= i < w.len() ==> crate::lexer::is_ident_char(
                #[trigger] w[i],
            )) by {
                assert(w[0] == 't');
                assert(w[1] == 'r');
                assert(w[2] == 'u');
                assert(w[3] == 'e');
            }
            assert(!crate::lexer::is_ws(s[p0]));
            lemma_skip_one_space(s, pos, p0);
            assert forall|j: int| p0 <= j < p0 + w.len() implies crate::lexer::is_ident_char(
                s[j],
            ) by {
                let i = j - p0;
                assert(s[p0 + i] == w[i]);
                assert(crate::lexer::is_ident_char(w[i]));
            }
            lemma_scan_ident(s, p0, p0 + w.len());
            assert(s.subrange(p0, p0 + w.len()) =~= w);
        },
        TokenV::False => {
            assert(w == "false"@);
            assert(w.len() == 5);
            assert(s[p0 + 0] == w[0]);
            assert(forall|i: int| 0 <= i < w.len() ==> crate::lexer::is_ident_char(
                #[trigger] w[i],
            )) by {
                assert(w[0] == 'f');
                assert(w[1] == 'a');
                assert(w[2] == 'l');
                assert(w[3] == 's');
                assert(w[4] == 'e');
            }
            assert(!crate::lexer::is_ws(s[p0]));
            lemma_skip_one_space(s, pos, p0);
            assert forall|j: int| p0 <= j < p0 + w.len() implies crate::lexer::is_ident_char(
                s[j],
            ) by {
                let i = j - p0;
                assert(s[p0 + i] == w[i]);
                assert(crate::lexer::is_ident_char(w[i]));
            }
            lemma_scan_ident(s, p0, p0 + w.len());
            assert(s.subrange(p0, p0 + w.len()) =~= w);
        },
        TokenV::Equal => {
            assert(w == "=="@);
            assert(w.len() == 2);
            assert(s[p0 + 0] == w[0]);
            assert(s[p0 + 1] == w[1]);
            assert(!crate::lexer::is_ws(s[p0]));
            lemma_skip_one_space(s, pos, p0);
        },
        TokenV::NotEqual => {
            assert(w == "!="@);
            assert(w.len() == 2);
            assert(s[p0 + 0] == w[0]);
            assert(s[p0 + 1] == w[1]);
            assert(!crate::lexer::is_ws(s[p0]));
            lemma_skip_one_space(s, pos, p0);
        },
        TokenV::Bang => {
            assert(w == "!"@);
            assert(w.len() == 1);
            assert(s[p0 + 0] == w[0]);
            assert(!crate::lexer::is_ws(s[p0]));
            lemma_skip_one_space(s, pos, p0);
            if p0 + 1 < s.len() {
                assert(s[p0 + 1] == ' ');
            }
        },
        TokenV::Int(v) => {
            lemma_dec_chars_round_trip(v as nat);
            assert(w == crate::object::dec_chars_nat(v as nat));
            assert(s[p0 + 0] == w[0]);
            assert(crate::lexer::is_digit(s[p0]));
            assert(!crate::lexer::is_ws(s[p0]));
            lemma_skip_one_space(s, pos, p0);
            assert forall|j: int| p0 <= j < p0 + w.len() implies crate::lexer::is_digit(
                s[j],
            ) by {
                let i = j - p0;
                assert(s[p0 + i] == w[i]);
                assert(crate::lexer::is_digit(w[i]));
            }
            lemma_scan_number(s, p0, p0 + w.len());
            assert(s.subrange(p0, p0 + w.len()) =~= w);
            assert(crate::lexer::digits_val(s.subrange(p0, p0 + w.len())) == v);
        },
        _ => {},
    }
}

/// Lexing the space-joined texts of lexable tokens, from a position at
/// the first text (or at the single space before it), yields exactly
/// those tokens.
pub proof fn lemma_lex_spaced_at(ts: Seq<TokenV>, s: Seq<char>, pos: int, leading: bool)
    requires
        forall|i: int| 0 <= i < ts.len() ==> lexable(#[trigger] ts[i]),
        0 <= pos,
        leading ==> pos < s.len() && s[pos] == ' ',
        seg_chars(s, pos + (if leading { 1int } else { 0int }), crate::render::spaced(ts)),
        pos + (if leading { 1int } else { 0int }) + crate::render::spaced(ts).len() == s.len(),
    ensures
        crate::lexer::spec_tokens(s, pos) == ts,
    decreases ts.len(),
{
    let p0 = pos + (if leading { 1int } else { 0int });
    let w = crate::render::spaced(ts);
    let len = s.len() as int;
    if ts.len() == 0 {
        assert(w.len() == 0);
        if leading {
            assert(crate::lexer::skip_ws(s, pos) == crate::lexer::skip_ws(s, pos + 1));
            assert(crate::lexer::skip_ws(s, pos + 1) == pos + 1);
            assert(crate::lexer::spec_next_token(s, pos) is None);
        }
        assert(crate::lexer::spec_tokens(s, pos) =~= Seq::<TokenV>::empty());
        assert(ts =~= Seq::<TokenV>::empty());
    } else {
        let t0 = ts[0];
        let w0 = crate::render::token_text(t0);
        if ts.len() == 1 {
            assert(w == w0);
            lemma_lex_one(t0, s, pos, leading);
            let p1 = p0 + w0.len();
            assert(p1 == len);
            assert(crate::lexer::bounded_step(s, pos, p1) == p1) by {
                assert(w0.len() >= 1);
            }
            assert(crate::lexer::spec_tokens(s, p1) =~= Seq::<TokenV>::empty());
            assert(crate::lexer::spec_tokens(s, pos) =~= seq![t0]);
            assert(ts =~= seq![t0]);
        } else {
            let rest = ts.drop_first();
            let wr = crate::render::spaced(rest);
            assert(w == w0 + seq![' '] + wr);
            assert(w.len() == w0.len() + 1 + wr.len());
            assert(seg_chars(s, p0, w0)) by {
                assert(forall|i: int| 0 <= i < w0.len() ==> w[i] == #[trigger] w0[i]);
                assert(forall|i: int| 0 <= i < w0.len() ==> s[p0 + i] == #[trigger] w[i]);
            }
            assert(s[p0 + w0.len() as int] == w[w0.len() as int]);
            assert(w[w0.len() as int] == ' ');
            lemma_lex_one(t0, s, pos, leading);
            let p1 = p0 + w0.len();
            assert(crate::lexer::bounded_step(s, pos, p1) == p1) by {
                assert(w0.len() >= 1);
            }
            assert(seg_chars(s, p1 + 1, wr)) by {
                assert forall|i: int| 0 <= i < wr.len() implies s[p1 + 1 + i] == wr[i] by {
                    assert(s[p0 + (w0.len() + 1 + i)] == w[w0.len() + 1 + i]);
                    assert(w[w0.len() + 1 + i] == wr[i]);
                }
            }
            assert(forall|i: int| 0 <= i < rest.len() ==> lexable(#[trigger] rest[i]));
            lemma_lex_spaced_at(rest, s, p1, true);
            assert(crate::lexer::spec_tokens(s, pos) == seq![t0] + rest);
            assert(seq![t0] + rest =~= ts);
        }
    }
}

/// The whole text-level round trip: lexing the text rendering of an
/// expression gives back exactly its token rendering.
pub proof fn lemma_lex_rendered_text(e: SpecNode)
    requires
        render_tokens(e) is Some,
    ensures
        ({
            let toks = render_tokens(e)->Some_0;
            crate::lexer::spec_tokens(crate::render::spaced(toks), 0) == toks
        }),
{
    let toks = render_tokens(e)->Some_0;
    lemma_render_lexable(e);
    let text = crate::render::spaced(toks);
    assert(seg_chars(text, 0, text));
    lemma_lex_spaced_at(toks, text, 0, false);
}

/// Every token of a rendering is lexable.
pub proof fn lemma_render_lexable(e: SpecNode)
    requires
        render_tokens(e) is Some,
    ensures
        forall|i: int|
            0 <= i < render_tokens(e)->Some_0.len() ==> lexable(
                #[trigger] render_tokens(e)->Some_0[i],
            ),
    decreases e, 1int,
{
    let r = render_tokens(e)->Some_0;
    match e {
        SpecNode::IntLit { value } => {
            if value >= 0 {
                assert(r == seq![TokenV::Int(value)]);
            } else {
                let m = (-(value as int)) as i64;
                assert(r == seq![TokenV::Lparen, TokenV::Minus, TokenV::Int(m), TokenV::Rparen]);
            }
        },
        SpecNode::BoolLit { value } => {},
        SpecNode::Prefix { operator, right } => {
            let op = prefix_op_token(operator)->Some_0;
            let rt = render_tokens(*right->Some_0)->Some_0;
            assert(r == seq![TokenV::Lparen, op] + rt + seq![TokenV::Rparen]);
            lemma_render_lexable(*right->Some_0);
            assert forall|i: int| 0 <= i < r.len() implies lexable(r[i]) by {
                if i == 0 {
                    assert(r[i] == TokenV::Lparen);
                } else if i == 1 {
                    assert(r[i] == op);
                } else if i < 2 + rt.len() {
                    assert(r[i] == rt[i - 2]);
                } else {
                    assert(r[i] == TokenV::Rparen);
                }
            }
        },
        SpecNode::Infix { operator, left, right } => {
            let op = op_token(operator)->Some_0;
            let lt = render_tokens(*left)->Some_0;
            let rt = render_tokens(*right->Some_0)->Some_0;
            assert(r == seq![TokenV::Lparen] + lt + seq![op] + rt + seq![TokenV::Rparen]);
            lemma_render_lexable(*left);
            lemma_render_lexable(*right->Some_0);
            assert forall|i: int| 0 <= i < r.len() implies lexable(r[i]) by {
                if i == 0 {
                    assert(r[i] == TokenV::Lparen);
                } else if i < 1 + lt.len() {
                    assert(r[i] == lt[i - 1]);
                } else if i == 1 + lt.len() {
                    assert(r[i] == op);
                } else if i < 2 + lt.len() + rt.len() {
                    assert(r[i] == rt[i - 2 - lt.len()]);
                } else {
                    assert(r[i] == TokenV::Rparen);
                }
            }
        },
        SpecNode::If { condition, consequence, alternative } => {
            let ct = render_tokens(*condition)->Some_0;
            let qt = render_tokens(*consequence)->Some_0;
            lemma_render_lexable(*condition);
            lemma_render_lexable(*consequence);
            match alternative {
                Option::Some(a) => {
                    let at = render_tokens(*a)->Some_0;
                    lemma_render_lexable(*a);
                    assert(r == seq![TokenV::If, TokenV::Lparen] + ct + seq![TokenV::Rparen] + qt
                        + seq![TokenV::Else] + at);
                    assert forall|i: int| 0 <= i < r.len() implies lexable(r[i]) by {
                        if i == 0 {
                            assert(r[i] == TokenV::If);
                        } else if i == 1 {
                            assert(r[i] == TokenV::Lparen);
                        } else if i < 2 + ct.len() {
                            assert(r[i] == ct[i - 2]);
                        } else if i == 2 + ct.len() {
                            assert(r[i] == TokenV::Rparen);
                        } else if i < 3 + ct.len() + qt.len() {
                            assert(r[i] == qt[i - 3 - ct.len()]);
                        } else if i == 3 + ct.len() + qt.len() {
                            assert(r[i] == TokenV::Else);
                        } else {
                            assert(r[i] == at[i - 4 - ct.len() - qt.len()]);
                        }
                    }
                },
                Option::None => {
                    assert(r == seq![TokenV::If, TokenV::Lparen] + ct + seq![TokenV::Rparen] + qt);
                    assert forall|i: int| 0 <= i < r.len() implies lexable(r[i]) by {
                        if i == 0 {
                            assert(r[i] == TokenV::If);
                        } else if i == 1 {
                            assert(r[i] == TokenV::Lparen);
                        } else if i < 2 + ct.len() {
                            assert(r[i] == ct[i - 2]);
                        } else if i == 2 + ct.len() {
                            assert(r[i] == TokenV::Rparen);
                        } else {
                            assert(r[i] == qt[i - 3 - ct.len()]);
                        }
                    }
                },
            }
        },
        SpecNode::Block { statements } => {
            let inner = render_stmts(statements)->Some_0;
            lemma_render_stmts_lexable(statements);
            assert(r == seq![TokenV::Lbrace] + inner + seq![TokenV::Rbrace]);
            assert forall|i: int| 0 <= i < r.len() implies lexable(r[i]) by {
                if i == 0 {
                    assert(r[i] == TokenV::Lbrace);
                } else if i < 1 + inner.len() {
                    assert(r[i] == inner[i - 1]);
                } else {
                    assert(r[i] == TokenV::Rbrace);
                }
            }
        },
        _ => {},
    }
}

/// Every token of a rendered statement list is lexable.
pub proof fn lemma_render_stmts_lexable(stmts: Seq<SpecNode>)
    requires
        render_stmts(stmts) is Some,
    ensures
        forall|i: int|
            0 <= i < render_stmts(stmts)->Some_0.len() ==> lexable(
                #[trigger] render_stmts(stmts)->Some_0[i],
            ),
    decreases stmts, 0int,
{
    let r = render_stmts(stmts)->Some_0;
    if stmts.len() == 0 {
    } else {
        let h = render_tokens(stmts[0])->Some_0;
        let tl = render_stmts(stmts.drop_first())->Some_0;
        lemma_render_lexable(stmts[0]);
        lemma_render_stmts_lexable(stmts.drop_first());
        assert(r == h + seq![TokenV::Semicolon] + tl);
        assert forall|i: int| 0 <= i < r.len() implies lexable(r[i]) by {
            if i < h.len() {
                assert(r[i] == h[i]);
            } else if i == h.len() {
                assert(r[i] == TokenV::Semicolon);
            } else {
                assert(r[i] == tl[i - 1 - h.len()]);
            }
        }
    }
}

/// The round-trip law in full: lex and re-parse the text rendering of an
/// expression as a whole program, and its evaluation is the original
/// tree's outcome.
pub proof fn lemma_round_trip_text(e: SpecNode)
    requires
        render_tokens(e) is Some,
        !(e is Block),
    ensures
        ({
            let text = crate::render::spec_render_text(e)->Some_0;
            let toks = crate::lexer::spec_tokens(text, 0);
            &&& spec_parse_program(toks, 0).1 is None
            &&& spec_eval_seq(spec_parse_program(toks, 0).0) == spec_eval(e)
        }),
{
    lemma_lex_rendered_text(e);
    lemma_round_trip_program(e);
}

} // verus!

//! The parser: recursive-descent statement parsing combined with
//! precedence-climbing (Pratt) expression parsing.
//!
//! The specification-level functions (`spec_parse_statement`,
//! `spec_parse_expression` and companions) define the whole grammar as
//! mathematics over a sequence of abstract tokens; every method of `Parser`
//! is proved to return exactly what they prescribe, both the tree built on
//! success and the kind of failure otherwise.

use crate::ast::{
    boxed_nodes_view, lemma_boxed_nodes_view_push, lemma_nodes_view_push, node_view, nodes_view,
    opt_node_view, Node, Program, SpecNode,
};
use crate::lexer::Lexer;
use crate::token::{Token, TokenV};
use vstd::prelude::*;

verus! {

/// The distinguishable ways a parse can fail.
#[derive(Debug, Clone, Copy, PartialEq, Eq, Structural)]
pub enum ParseError {
    /// A required token (an identifier after `let`, `=`, `)`, `}`) is absent.
    UnexpectedToken,
    /// The current token cannot begin any expression.
    MissingPrefixHandler,
    /// An operator's right-hand side could not be parsed.
    MissingOperand,
}

/// Binding power of an operator token; higher binds tighter. Zero marks a
/// token that is no infix operator at all. The numbers only establish
/// ordering.
pub open spec fn infix_rank(t: TokenV) -> int {
    match t {
        TokenV::Equal => 1,
        TokenV::NotEqual => 1,
        TokenV::Gt => 2,
        TokenV::Lt => 2,
        TokenV::Plus => 3,
        TokenV::Minus => 3,
        TokenV::Asterisk => 4,
        TokenV::Slash => 4,
        TokenV::Lparen => 6,
        _ => 0,
    }
}

/// A binary operator token.
pub open spec fn is_binary_op(t: TokenV) -> bool {
    t is Equal || t is NotEqual || t is Gt || t is Lt || t is Plus || t is Minus || t is Asterisk
        || t is Slash
}

/// A token that may continue an expression in infix position: a binary
/// operator, or `(` applying a call to the expression so far.
pub open spec fn has_infix(t: TokenV) -> bool {
    is_binary_op(t) || t is Lparen
}

/// The operator name stored in prefix and infix nodes.
pub open spec fn operator_text(t: TokenV) -> Seq<char> {
    match t {
        TokenV::Plus => "PLUS"@,
        TokenV::Minus => "MINUS"@,
        TokenV::Gt => "GT"@,
        TokenV::Lt => "LT"@,
        TokenV::Bang => "BANG"@,
        TokenV::Asterisk => "ASTERISK"@,
        TokenV::Slash => "SLASH"@,
        TokenV::Equal => "EQ"@,
        TokenV::NotEqual => "NOT_EQ"@,
        _ => Seq::empty(),
    }
}

/// A token with an operator name.
pub open spec fn has_operator_text(t: TokenV) -> bool {
    t is Plus || t is Minus || t is Gt || t is Lt || t is Bang || t is Asterisk || t is Slash
        || t is Equal || t is NotEqual
}

/// Outcome of parsing one syntactic unit: the node built and the position
/// just past it, or the kind of failure.
pub enum Parsed {
    Found { node: SpecNode, next: int },
    Failed { err: ParseError },
}

/// Outcome of parsing a delimited list of units.
pub enum ParsedSeq {
    FoundSeq { nodes: Seq<SpecNode>, next: int },
    FailedSeq { err: ParseError },
}

/// Keeps a successor position inside `(pos, len]`; identical to `p`
/// whenever `p` already lies there, which holds of every position a
/// successful parse returns.
pub open spec fn step_bound(len: int, pos: int, p: int) -> int {
    if pos < p && p <= len {
        p
    } else {
        pos + 1
    }
}

/// Statement dispatch: `let`, `return`, a brace-delimited block, and
/// otherwise an expression statement.
pub open spec fn spec_parse_statement(t: Seq<TokenV>, pos: int) -> Parsed
    decreases t.len() - pos, 5int,
{
    if !(0 <= pos && pos < t.len()) {
        Parsed::Failed { err: ParseError::MissingPrefixHandler }
    } else {
        match t[pos] {
            TokenV::Let => spec_parse_let(t, pos),
            TokenV::Return => spec_parse_return(t, pos),
            TokenV::Lbrace => spec_parse_block(t, pos),
            _ => spec_parse_expression_statement(t, pos),
        }
    }
}

/// An expression followed by an optional trailing semicolon.
pub open spec fn spec_parse_expression_statement(t: Seq<TokenV>, pos: int) -> Parsed
    decreases t.len() - pos, 4int,
{
    match spec_parse_expression(t, pos, 0) {
        Parsed::Found { node, next } => {
            let nb = step_bound(t.len() as int, pos, next);
            if nb < t.len() && t[nb] is Semicolon {
                Parsed::Found { node, next: nb + 1 }
            } else {
                Parsed::Found { node, next }
            }
        },
        f => f,
    }
}

/// `let IDENT = EXPR [;]`.
pub open spec fn spec_parse_let(t: Seq<TokenV>, pos: int) -> Parsed
    decreases t.len() - pos, 1int,
{
    if !(0 <= pos && pos < t.len() && t[pos] is Let) {
        Parsed::Failed { err: ParseError::UnexpectedToken }
    } else if !(pos + 1 < t.len() && t[pos + 1] is Ident) {
        Parsed::Failed { err: ParseError::UnexpectedToken }
    } else if !(pos + 2 < t.len() && t[pos + 2] is Assign) {
        Parsed::Failed { err: ParseError::UnexpectedToken }
    } else {
        match spec_parse_expression(t, pos + 3, 0) {
            Parsed::Found { node: v, next } => {
                let name = t[pos + 1]->Ident_0;
                let nb = step_bound(t.len() as int, pos, next);
                let nx = if nb < t.len() && t[nb] is Semicolon {
                    nb + 1
                } else {
                    next
                };
                Parsed::Found {
                    node: SpecNode::LetStmt { name, value: Box::new(v) },
                    next: nx,
                }
            },
            f => f,
        }
    }
}

/// `return [EXPR] [;]`; a bare `return` is legal.
pub open spec fn spec_parse_return(t: Seq<TokenV>, pos: int) -> Parsed
    decreases t.len() - pos, 1int,
{
    if !(0 <= pos && pos < t.len() && t[pos] is Return) {
        Parsed::Failed { err: ParseError::UnexpectedToken }
    } else if pos + 1 >= t.len() || t[pos + 1] is Semicolon || t[pos + 1] is Rbrace {
        let nx = if pos + 1 < t.len() && t[pos + 1] is Semicolon {
            pos + 2
        } else {
            pos + 1
        };
        Parsed::Found { node: SpecNode::ReturnStmt { value: Option::None }, next: nx }
    } else {
        match spec_parse_expression(t, pos + 1, 0) {
            Parsed::Found { node: v, next } => {
                let nb = step_bound(t.len() as int, pos, next);
                let nx = if nb < t.len() && t[nb] is Semicolon {
                    nb + 1
                } else {
                    next
                };
                Parsed::Found {
                    node: SpecNode::ReturnStmt { value: Option::Some(Box::new(v)) },
                    next: nx,
                }
            },
            f => f,
        }
    }
}

/// `{ STATEMENT* }`.
pub open spec fn spec_parse_block(t: Seq<TokenV>, pos: int) -> Parsed
    decreases t.len() - pos, 1int,
{
    if !(0 <= pos && pos < t.len() && t[pos] is Lbrace) {
        Parsed::Failed { err: ParseError::UnexpectedToken }
    } else {
        match spec_parse_block_items(t, pos + 1) {
            ParsedSeq::FoundSeq { nodes, next } => Parsed::Found {
                node: SpecNode::Block { statements: nodes },
                next,
            },
            ParsedSeq::FailedSeq { err } => Parsed::Failed { err },
        }
    }
}

/// Statements up to and including the closing `}`; an unclosed block is an
/// `UnexpectedToken` failure.
pub open spec fn spec_parse_block_items(t: Seq<TokenV>, pos: int) -> ParsedSeq
    decreases t.len() - pos, 6int,
{
    if !(0 <= pos && pos < t.len()) {
        ParsedSeq::FailedSeq { err: ParseError::UnexpectedToken }
    } else if t[pos] is Rbrace {
        ParsedSeq::FoundSeq { nodes: Seq::empty(), next: pos + 1 }
    } else {
        match spec_parse_statement(t, pos) {
            Parsed::Found { node, next } => {
                match spec_parse_block_items(t, step_bound(t.len() as int, pos, next)) {
                    ParsedSeq::FoundSeq { nodes, next: n2 } => ParsedSeq::FoundSeq {
                        nodes: seq![node] + nodes,
                        next: n2,
                    },
                    f => f,
                }
            },
            Parsed::Failed { err } => ParsedSeq::FailedSeq { err },
        }
    }
}

/// Top-level statements until the stream ends; stops at the first failure
/// and reports it alongside the statements parsed so far.
pub open spec fn spec_parse_program(t: Seq<TokenV>, pos: int) -> (Seq<SpecNode>, Option<
    ParseError,
>)
    decreases t.len() - pos, 6int,
{
    if !(0 <= pos && pos < t.len()) {
        (Seq::empty(), Option::None)
    } else {
        match spec_parse_statement(t, pos) {
            Parsed::Found { node, next } => {
                let r = spec_parse_program(t, step_bound(t.len() as int, pos, next));
                (seq![node] + r.0, r.1)
            },
            Parsed::Failed { err } => (Seq::empty(), Option::Some(err)),
        }
    }
}

/// Precedence climbing: a prefix unit, then the infix loop.
pub open spec fn spec_parse_expression(t: Seq<TokenV>, pos: int, min: int) -> Parsed
    decreases t.len() - pos, 3int,
{
    if !(0 <= pos && pos < t.len()) {
        Parsed::Failed { err: ParseError::MissingPrefixHandler }
    } else {
        match spec_parse_prefix(t, pos) {
            Parsed::Found { node, next } => spec_parse_infix_loop(
                t,
                step_bound(t.len() as int, pos, next),
                min,
                node,
            ),
            f => f,
        }
    }
}

/// One step of the infix loop: combine `left` with the operator at `pos`
/// and a freshly parsed right operand, or apply a call argument list.
pub open spec fn spec_infix_step(t: Seq<TokenV>, pos: int, left: SpecNode) -> Parsed
    decreases t.len() - pos, 1int,
{
    if !(0 <= pos && pos < t.len()) {
        Parsed::Failed { err: ParseError::MissingOperand }
    } else if is_binary_op(t[pos]) {
        match spec_parse_expression(t, pos + 1, infix_rank(t[pos])) {
            Parsed::Found { node: right, next } => Parsed::Found {
                node: SpecNode::Infix {
                    operator: operator_text(t[pos]),
                    left: Box::new(left),
                    right: Option::Some(Box::new(right)),
                },
                next,
            },
            Parsed::Failed { err: _ } => Parsed::Failed { err: ParseError::MissingOperand },
        }
    } else if t[pos] is Lparen {
        match spec_parse_call_args(t, pos + 1) {
            ParsedSeq::FoundSeq { nodes, next } => Parsed::Found {
                node: SpecNode::Call { callee: Box::new(left), arguments: nodes },
                next,
            },
            ParsedSeq::FailedSeq { err } => Parsed::Failed { err },
        }
    } else {
        Parsed::Failed { err: ParseError::MissingOperand }
    }
}

/// The infix loop: while the current token is an infix operator binding
/// strictly tighter than `min`, absorb it; left associativity comes from
/// parsing each right operand at the operator's own precedence.
pub open spec fn spec_parse_infix_loop(t: Seq<TokenV>, pos: int, min: int, left: SpecNode) -> Parsed
    decreases t.len() - pos, 2int,
{
    if !(0 <= pos && pos < t.len() && has_infix(t[pos]) && infix_rank(t[pos]) > min) {
        Parsed::Found { node: left, next: pos }
    } else {
        match spec_infix_step(t, pos, left) {
            Parsed::Found { node, next } => spec_parse_infix_loop(
                t,
                step_bound(t.len() as int, pos, next),
                min,
                node,
            ),
            f => f,
        }
    }
}

/// Prefix dispatch: literals and identifiers are leaves; `-` and `!`
/// recurse at prefix precedence; `(` groups; `fn` and `if` open their own
/// forms. Any other token has no prefix rule.
pub open spec fn spec_parse_prefix(t: Seq<TokenV>, pos: int) -> Parsed
    decreases t.len() - pos, 2int,
{
    if !(0 <= pos && pos < t.len()) {
        Parsed::Failed { err: ParseError::MissingPrefixHandler }
    } else {
        match t[pos] {
            TokenV::Ident(name) => Parsed::Found {
                node: SpecNode::Ident { name },
                next: pos + 1,
            },
            TokenV::Int(v) => Parsed::Found { node: SpecNode::IntLit { value: v }, next: pos + 1 },
            TokenV::True => Parsed::Found {
                node: SpecNode::BoolLit { value: true },
                next: pos + 1,
            },
            TokenV::False => Parsed::Found {
                node: SpecNode::BoolLit { value: false },
                next: pos + 1,
            },
            TokenV::Minus => spec_parse_prefix_op(t, pos),
            TokenV::Bang => spec_parse_prefix_op(t, pos),
            TokenV::Lparen => match spec_parse_expression(t, pos + 1, 0) {
                Parsed::Found { node, next } => {
                    let nb = step_bound(t.len() as int, pos, next);
                    if nb < t.len() && t[nb] is Rparen {
                        Parsed::Found { node, next: nb + 1 }
                    } else {
                        Parsed::Failed { err: ParseError::UnexpectedToken }
                    }
                },
                f => f,
            },
            TokenV::Function => spec_parse_function_literal(t, pos),
            TokenV::If => spec_parse_if(t, pos),
            _ => Parsed::Failed { err: ParseError::MissingPrefixHandler },
        }
    }
}

/// A prefix operator (`-` or `!`) applied to an operand parsed at prefix
/// precedence; a missing operand is a failure.
pub open spec fn spec_parse_prefix_op(t: Seq<TokenV>, pos: int) -> Parsed
    decreases t.len() - pos, 1int,
{
    if !(0 <= pos && pos < t.len()) {
        Parsed::Failed { err: ParseError::MissingOperand }
    } else {
        match spec_parse_expression(t, pos + 1, 5) {
            Parsed::Found { node, next } => Parsed::Found {
                node: SpecNode::Prefix {
                    operator: operator_text(t[pos]),
                    right: Option::Some(Box::new(node)),
                },
                next,
            },
            Parsed::Failed { err: _ } => Parsed::Failed { err: ParseError::MissingOperand },
        }
    }
}

/// `fn [IDENT] ( PARAMS ) { BODY }`; the optional name only decorates the
/// node's token.
pub open spec fn spec_parse_function_literal(t: Seq<TokenV>, pos: int) -> Parsed
    decreases t.len() - pos, 1int,
{
    if !(0 <= pos && pos < t.len() && t[pos] is Function) {
        Parsed::Failed { err: ParseError::UnexpectedToken }
    } else {
        let q = if pos + 1 < t.len() && t[pos + 1] is Ident {
            pos + 2
        } else {
            pos + 1
        };
        if !(q < t.len() && t[q] is Lparen) {
            Parsed::Failed { err: ParseError::UnexpectedToken }
        } else {
            match spec_parse_fn_params(t, q + 1) {
                ParsedSeq::FoundSeq { nodes: params, next } => {
                    let nb = step_bound(t.len() as int, pos, next);
                    if nb < t.len() && t[nb] is Lbrace {
                        match spec_parse_block(t, nb) {
                            Parsed::Found { node: body, next: n2 } => Parsed::Found {
                                node: SpecNode::Function {
                                    parameters: params,
                                    body: Box::new(body),
                                },
                                next: n2,
                            },
                            f => f,
                        }
                    } else {
                        Parsed::Failed { err: ParseError::UnexpectedToken }
                    }
                },
                ParsedSeq::FailedSeq { err } => Parsed::Failed { err },
            }
        }
    }
}

/// Function parameters: bare identifiers separated by commas, up to and
/// including the closing `)`.
pub open spec fn spec_parse_fn_params(t: Seq<TokenV>, pos: int) -> ParsedSeq
    decreases t.len() - pos, 0int,
{
    if !(0 <= pos && pos < t.len()) {
        ParsedSeq::FailedSeq { err: ParseError::UnexpectedToken }
    } else if t[pos] is Rparen {
        ParsedSeq::FoundSeq { nodes: Seq::empty(), next: pos + 1 }
    } else {
        match t[pos] {
            TokenV::Ident(name) => match spec_parse_fn_params_more(t, pos + 1) {
                ParsedSeq::FoundSeq { nodes, next } => ParsedSeq::FoundSeq {
                    nodes: seq![SpecNode::Ident { name }] + nodes,
                    next,
                },
                f => f,
            },
            _ => ParsedSeq::FailedSeq { err: ParseError::UnexpectedToken },
        }
    }
}

/// Continuation of a parameter list after one identifier: `,` and another
/// identifier, or the closing `)`.
pub open spec fn spec_parse_fn_params_more(t: Seq<TokenV>, pos: int) -> ParsedSeq
    decreases t.len() - pos, 0int,
{
    if !(0 <= pos && pos < t.len()) {
        ParsedSeq::FailedSeq { err: ParseError::UnexpectedToken }
    } else if t[pos] is Rparen {
        ParsedSeq::FoundSeq { nodes: Seq::empty(), next: pos + 1 }
    } else if t[pos] is Comma && pos + 1 < t.len() && t[pos + 1] is Ident {
        match spec_parse_fn_params_more(t, pos + 2) {
            ParsedSeq::FoundSeq { nodes, next } => ParsedSeq::FoundSeq {
                nodes: seq![SpecNode::Ident { name: t[pos + 1]->Ident_0 }] + nodes,
                next,
            },
            f => f,
        }
    } else {
        ParsedSeq::FailedSeq { err: ParseError::UnexpectedToken }
    }
}

/// Call arguments: full expressions separated by commas, up to and
/// including the closing `)`.
pub open spec fn spec_parse_call_args(t: Seq<TokenV>, pos: int) -> ParsedSeq
    decreases t.len() - pos, 4int,
{
    if !(0 <= pos && pos < t.len()) {
        ParsedSeq::FailedSeq { err: ParseError::UnexpectedToken }
    } else if t[pos] is Rparen {
        ParsedSeq::FoundSeq { nodes: Seq::empty(), next: pos + 1 }
    } else {
        match spec_parse_expression(t, pos, 0) {
            Parsed::Found { node, next } => {
                match spec_parse_call_args_more(t, step_bound(t.len() as int, pos, next)) {
                    ParsedSeq::FoundSeq { nodes, next: n2 } => ParsedSeq::FoundSeq {
                        nodes: seq![node] + nodes,
                        next: n2,
                    },
                    f => f,
                }
            },
            Parsed::Failed { err } => ParsedSeq::FailedSeq { err },
        }
    }
}

/// Continuation of an argument list after one expression: `,` and another
/// expression, or the closing `)`.
pub open spec fn spec_parse_call_args_more(t: Seq<TokenV>, pos: int) -> ParsedSeq
    decreases t.len() - pos, 0int,
{
    if !(0 <= pos && pos < t.len()) {
        ParsedSeq::FailedSeq { err: ParseError::UnexpectedToken }
    } else if t[pos] is Rparen {
        ParsedSeq::FoundSeq { nodes: Seq::empty(), next: pos + 1 }
    } else if t[pos] is Comma {
        match spec_parse_expression(t, pos + 1, 0) {
            Parsed::Found { node, next } => {
                match spec_parse_call_args_more(t, step_bound(t.len() as int, pos, next)) {
                    ParsedSeq::FoundSeq { nodes, next: n2 } => ParsedSeq::FoundSeq {
                        nodes: seq![node] + nodes,
                        next: n2,
                    },
                    f => f,
                }
            },
            Parsed::Failed { err } => ParsedSeq::FailedSeq { err },
        }
    } else {
        ParsedSeq::FailedSeq { err: ParseError::UnexpectedToken }
    }
}

/// `if ( COND ) { CONSEQUENCE } [else { ALTERNATIVE }]`; an absent `else`
/// is an absent alternative, not an empty block.
pub open spec fn spec_parse_if(t: Seq<TokenV>, pos: int) -> Parsed
    decreases t.len() - pos, 1int,
{
    if !(0 <= pos && pos < t.len() && t[pos] is If) {
        Parsed::Failed { err: ParseError::UnexpectedToken }
    } else if !(pos + 1 < t.len() && t[pos + 1] is Lparen) {
        Parsed::Failed { err: ParseError::UnexpectedToken }
    } else {
        match spec_parse_expression(t, pos + 2, 0) {
            Parsed::Found { node: cond, next } => {
                let nb = step_bound(t.len() as int, pos, next);
                if !(nb < t.len() && t[nb] is Rparen) {
                    Parsed::Failed { err: ParseError::UnexpectedToken }
                } else if !(nb + 1 < t.len() && t[nb + 1] is Lbrace) {
                    Parsed::Failed { err: ParseError::UnexpectedToken }
                } else {
                    match spec_parse_block(t, nb + 1) {
                        Parsed::Found { node: conseq, next: n2 } => {
                            let eb = step_bound(t.len() as int, pos, n2);
                            if eb < t.len() && t[eb] is Else {
                                if !(eb + 1 < t.len() && t[eb + 1] is Lbrace) {
                                    Parsed::Failed { err: ParseError::UnexpectedToken }
                                } else {
                                    match spec_parse_block(t, eb + 1) {
                                        Parsed::Found { node: alt, next: n3 } => Parsed::Found {
                                            node: SpecNode::If {
                                                condition: Box::new(cond),
                                                consequence: Box::new(conseq),
                                                alternative: Option::Some(Box::new(alt)),
                                            },
                                            next: n3,
                                        },
                                        f => f,
                                    }
                                }
                            } else {
                                Parsed::Found {
                                    node: SpecNode::If {
                                        condition: Box::new(cond),
                                        consequence: Box::new(conseq),
                                        alternative: Option::None,
                                    },
                                    next: n2,
                                }
                            }
                        },
                        f => f,
                    }
                }
            },
            f => f,
        }
    }
}

/// A successful parse result agrees with `p` when `p` found exactly the
/// returned node's image ending at `next`; a failure agrees when `p` failed
/// with the same kind.
pub open spec fn agrees(p: Parsed, r: Result<Node, ParseError>, next: int) -> bool {
    match r {
        Result::Ok(n) => p == (Parsed::Found { node: node_view(n), next }),
        Result::Err(e) => p == (Parsed::Failed { err: e }),
    }
}

/// As `agrees`, for list-producing parses.
pub open spec fn agrees_seq(p: ParsedSeq, r: Result<Vec<Node>, ParseError>, next: int) -> bool {
    match r {
        Result::Ok(v) => p == (ParsedSeq::FoundSeq { nodes: nodes_view(v@), next }),
        Result::Err(e) => p == (ParsedSeq::FailedSeq { err: e }),
    }
}

/// Operator precedence levels, lowest first. The numeric ranks only
/// establish ordering.
#[derive(Debug, Clone, Copy, PartialEq, Eq, Structural, PartialOrd)]
pub enum Precedence {
    Lowest,
    Equals,
    LessGreater,
    Sum,
    Product,
    Prefix,
    Call,
}

impl Precedence {
    /// Rank used for comparisons.
    pub open spec fn spec_rank(self) -> int {
        match self {
            Precedence::Lowest => 0,
            Precedence::Equals => 1,
            Precedence::LessGreater => 2,
            Precedence::Sum => 3,
            Precedence::Product => 4,
            Precedence::Prefix => 5,
            Precedence::Call => 6,
        }
    }

    /// Rank used for comparisons.
    pub fn rank(self) -> (r: u8)
        ensures
            r as int == self.spec_rank(),
    {
        match self {
            Precedence::Lowest => 0,
            Precedence::Equals => 1,
            Precedence::LessGreater => 2,
            Precedence::Sum => 3,
            Precedence::Product => 4,
            Precedence::Prefix => 5,
            Precedence::Call => 6,
        }
    }
}

/// The precedence a token binds with in infix position.
pub fn token_precedence(t: &Token) -> (p: Precedence)
    ensures
        p.spec_rank() == infix_rank(t@),
{
    match t {
        Token::EQ => Precedence::Equals,
        Token::NOT_EQ => Precedence::Equals,
        Token::GT => Precedence::LessGreater,
        Token::LT => Precedence::LessGreater,
        Token::PLUS => Precedence::Sum,
        Token::MINUS => Precedence::Sum,
        Token::ASTERISK => Precedence::Product,
        Token::SLASH => Precedence::Product,
        Token::LPAREN => Precedence::Call,
        _ => Precedence::Lowest,
    }
}

/// The mathematical state of a parser: the abstract token stream, the
/// position of the current token, and the failure recorded by the last
/// whole-program parse.
pub struct ParserV {
    pub tokens: Seq<TokenV>,
    pub pos: int,
    pub error: Option<ParseError>,
}

/// A pull-based parser over the token stream of a lexer. The whole stream
/// is drawn from the lexer up front; `pos` then walks it.
#[derive(Debug)]
pub struct Parser {
    tokens: Vec<Token>,
    pos: usize,
    error: Option<ParseError>,
}

impl View for Parser {
    type V = ParserV;

    closed spec fn view(&self) -> ParserV {
        ParserV { tokens: self.tokens.deep_view(), pos: self.pos as int, error: self.error }
    }
}

impl Parser {
    /// The position never runs past the end of the token stream.
    pub closed spec fn wf(&self) -> bool {
        self.pos <= self.tokens.len()
    }

    /// A parser holding the whole token stream of `lexer`, positioned at
    /// its first token.
    pub fn new(lexer: Lexer<'_>) -> (p: Parser)
        requires
            lexer.wf(),
        ensures
            p.wf(),
            p@.tokens == crate::lexer::spec_tokens(lexer@.chars, lexer@.pos),
            p@.pos == 0,
            p@.error is None,
    {
        let ghost s = lexer@.chars;
        let ghost pos0 = lexer@.pos;
        let mut lx = lexer;
        let mut tokens: Vec<Token> = Vec::new();
        proof {
            lx.wf_bounds();
            assert(tokens.deep_view() =~= Seq::<TokenV>::empty());
        }
        loop
            invariant
                lx.wf(),
                lx@.chars == s,
                crate::lexer::spec_tokens(s, pos0) == tokens.deep_view() + crate::lexer::spec_tokens(
                    s,
                    lx@.pos,
                ),
            ensures
                crate::lexer::spec_tokens(s, pos0) == tokens.deep_view(),
            decreases lx@.chars.len() - lx@.pos,
        {
            let ghost p_before = lx@.pos;
            proof {
                lx.wf_bounds();
            }
            match lx.next_token() {
                Some(tok) => {
                    let ghost old_deep = tokens.deep_view();
                    proof {
                        crate::lexer::lemma_next_token_advances(s, p_before);
                    }
                    tokens.push(tok);
                    proof {
                        assert(tokens.deep_view() =~= old_deep.push(tok@));
                        assert(crate::lexer::spec_tokens(s, p_before) == seq![tok@]
                            + crate::lexer::spec_tokens(s, lx@.pos));
                        assert(old_deep + (seq![tok@] + crate::lexer::spec_tokens(s, lx@.pos))
                            =~= old_deep.push(tok@) + crate::lexer::spec_tokens(s, lx@.pos));
                    }
                },
                None => {
                    proof {
                        assert(crate::lexer::spec_tokens(s, lx@.pos) =~= Seq::<TokenV>::empty());
                        assert(tokens.deep_view() + Seq::<TokenV>::empty() =~= tokens.deep_view());
                    }
                    break ;
                },
            }
        }
        Parser { tokens, pos: 0, error: None }
    }

    /// The failure recorded by the last call to `parse_program`, if any.
    pub fn last_error(&self) -> (e: Option<ParseError>)
        ensures
            e == self@.error,
    {
        self.error
    }

    /// The current token, if the stream has not ended.
    pub fn get_cur_token(&self) -> (t: Option<Token>)
        requires
            self.wf(),
        ensures
            t matches Option::Some(tok) ==> self@.pos < self@.tokens.len() && tok@
                == self@.tokens[self@.pos],
            t is None ==> self@.pos >= self@.tokens.len(),
    {
        if self.pos < self.tokens.len() {
            Some(self.tokens[self.pos].clone())
        } else {
            None
        }
    }

    /// One-token lookahead past the current token.
    pub fn peek_token(&self) -> (t: Option<Token>)
        requires
            self.wf(),
        ensures
            t matches Option::Some(tok) ==> self@.pos + 1 < self@.tokens.len() && tok@
                == self@.tokens[self@.pos + 1],
            t is None ==> self@.pos + 1 >= self@.tokens.len(),
    {
        if self.pos < self.tokens.len() && self.pos + 1 < self.tokens.len() {
            Some(self.tokens[self.pos + 1].clone())
        } else {
            None
        }
    }

    /// Advance to the next token and return it.
    pub fn next_token(&mut self) -> (t: Option<Token>)
        requires
            old(self).wf(),
        ensures
            final(self).wf(),
            final(self)@.tokens == old(self)@.tokens,
            final(self)@.error == old(self)@.error,
            final(self)@.pos == (if old(self)@.pos < old(self)@.tokens.len() {
                old(self)@.pos + 1
            } else {
                old(self)@.pos
            }),
            t matches Option::Some(tok) ==> final(self)@.pos < final(self)@.tokens.len() && tok@
                == final(self)@.tokens[final(self)@.pos],
            t is None ==> final(self)@.pos >= final(self)@.tokens.len(),
    {
        if self.pos < self.tokens.len() {
            self.pos = self.pos + 1;
        }
        if self.pos < self.tokens.len() {
            Some(self.tokens[self.pos].clone())
        } else {
            None
        }
    }

    /// Precedence of the current token; `Lowest` at the end of the stream.
    fn cur_precedence(&self) -> (p: Precedence)
        requires
            self.wf(),
        ensures
            p.spec_rank() == (if self@.pos < self@.tokens.len() {
                infix_rank(self@.tokens[self@.pos])
            } else {
                0int
            }),
    {
        if self.pos < self.tokens.len() {
            token_precedence(&self.tokens[self.pos])
        } else {
            Precedence::Lowest
        }
    }

    /// Precedence of the token after the current one; `Lowest` at the end.
    fn peek_precedence(&self) -> (p: Precedence)
        requires
            self.wf(),
        ensures
            p.spec_rank() == (if self@.pos + 1 < self@.tokens.len() {
                infix_rank(self@.tokens[self@.pos + 1])
            } else {
                0int
            }),
    {
        if self.pos < self.tokens.len() && self.pos + 1 < self.tokens.len() {
            token_precedence(&self.tokens[self.pos + 1])
        } else {
            Precedence::Lowest
        }
    }

    /// The operator name stored in nodes for an operator token.
    fn operator_from_tok(tok: &Token) -> (s: String)
        requires
            has_operator_text(tok@),
        ensures
            s@ == operator_text(tok@),
    {
        match tok {
            Token::PLUS => "PLUS".to_owned(),
            Token::MINUS => "MINUS".to_owned(),
            Token::GT => "GT".to_owned(),
            Token::LT => "LT".to_owned(),
            Token::BANG => "BANG".to_owned(),
            Token::ASTERISK => "ASTERISK".to_owned(),
            Token::SLASH => "SLASH".to_owned(),
            Token::EQ => "EQ".to_owned(),
            _ => "NOT_EQ".to_owned(),
        }
    }

    /// Parse the whole token stream into a program, one statement per
    /// syntactic unit. Stops at the first failure, recording its kind; the
    /// statements parsed before it are kept.
    pub fn parse_program(&mut self) -> (prog: Program)
        requires
            old(self).wf(),
        ensures
            final(self).wf(),
            final(self)@.tokens == old(self)@.tokens,
            nodes_view(prog.statements@) == spec_parse_program(
                old(self)@.tokens,
                old(self)@.pos,
            ).0,
            final(self)@.error == spec_parse_program(old(self)@.tokens, old(self)@.pos).1,
    {
        self.error = None;
        let ghost t = self@.tokens;
        let ghost pos0 = self@.pos;
        let mut program = Program::new();
        loop
            invariant
                self.wf(),
                self@.tokens == t,
                t == old(self)@.tokens,
                pos0 == old(self)@.pos,
                pos0 <= self@.pos,
                self@.error is None,
                spec_parse_program(t, pos0).0 == nodes_view(program.statements@)
                    + spec_parse_program(t, self@.pos).0,
                spec_parse_program(t, pos0).1 == spec_parse_program(t, self@.pos).1,
            ensures
                self.wf(),
                self@.tokens == t,
                self@.error is None,
                nodes_view(program.statements@) == spec_parse_program(t, pos0).0,
                spec_parse_program(t, pos0).1 is None,
            decreases self@.tokens.len() - self@.pos,
        {
            if self.pos >= self.tokens.len() {
                proof {
                    assert(nodes_view(program.statements@) + Seq::<SpecNode>::empty()
                        =~= nodes_view(program.statements@));
                }
                break ;
            }
            let ghost p_before = self@.pos;
            match self.parse_statement() {
                Ok(stmt) => {
                    let ghost old_stmts = program.statements@;
                    proof {
                        lemma_nodes_view_push(old_stmts, stmt);
                    }
                    program.statements.push(stmt);
                    proof {
                        assert(nodes_view(old_stmts) + (seq![node_view(stmt)] + spec_parse_program(
                            t,
                            self@.pos,
                        ).0) =~= nodes_view(old_stmts.push(stmt)) + spec_parse_program(
                            t,
                            self@.pos,
                        ).0);
                    }
                },
                Err(e) => {
                    self.error = Some(e);
                    proof {
                        assert(nodes_view(program.statements@) + Seq::<SpecNode>::empty()
                            =~= nodes_view(program.statements@));
                    }
                    return program;
                },
            }
        }
        program
    }

    /// Parse one statement: `let`, `return`, a block, or an expression
    /// statement, by the current token alone.
    pub fn parse_statement(&mut self) -> (r: Result<Node, ParseError>)
        requires
            old(self).wf(),
        ensures
            final(self).wf(),
            final(self)@.tokens == old(self)@.tokens,
            final(self)@.error == old(self)@.error,
            old(self)@.pos <= final(self)@.pos,
            r is Ok ==> old(self)@.pos < final(self)@.pos,
            agrees(
                spec_parse_statement(old(self)@.tokens, old(self)@.pos),
                r,
                final(self)@.pos,
            ),
        decreases old(self)@.tokens.len() - old(self)@.pos, 5int,
    {
        if self.pos >= self.tokens.len() {
            return Err(ParseError::MissingPrefixHandler);
        }
        match &self.tokens[self.pos] {
            Token::LET => self.parse_let_statement(),
            Token::RETURN => self.parse_return_statement(),
            Token::LBRACE => self.parse_block_statement(),
            _ => self.parse_expression_statement(),
        }
    }

    /// Parse an expression statement: an expression followed by an
    /// optional trailing semicolon.
    pub fn parse_expression_statement(&mut self) -> (r: Result<Node, ParseError>)
        requires
            old(self).wf(),
        ensures
            final(self).wf(),
            final(self)@.tokens == old(self)@.tokens,
            final(self)@.error == old(self)@.error,
            old(self)@.pos <= final(self)@.pos,
            r is Ok ==> old(self)@.pos < final(self)@.pos,
            agrees(
                spec_parse_expression_statement(old(self)@.tokens, old(self)@.pos),
                r,
                final(self)@.pos,
            ),
        decreases old(self)@.tokens.len() - old(self)@.pos, 4int,
    {
        let expr = match self.parse_expression(Precedence::Lowest) {
            Ok(v) => v,
            Err(e) => {
                return Err(e);
            },
        };
        if self.pos < self.tokens.len() && matches!(&self.tokens[self.pos], Token::SEMICOLON) {
            self.pos = self.pos + 1;
        }
        Ok(expr)
    }

    /// Parse `let IDENT = EXPR [;]`.
    pub fn parse_let_statement(&mut self) -> (r: Result<Node, ParseError>)
        requires
            old(self).wf(),
        ensures
            final(self).wf(),
            final(self)@.tokens == old(self)@.tokens,
            final(self)@.error == old(self)@.error,
            old(self)@.pos <= final(self)@.pos,
            r is Ok ==> old(self)@.pos < final(self)@.pos,
            agrees(spec_parse_let(old(self)@.tokens, old(self)@.pos), r, final(self)@.pos),
        decreases old(self)@.tokens.len() - old(self)@.pos, 1int,
    {
        if !(self.pos < self.tokens.len() && matches!(&self.tokens[self.pos], Token::LET)) {
            return Err(ParseError::UnexpectedToken);
        }
        if self.pos + 1 >= self.tokens.len() {
            return Err(ParseError::UnexpectedToken);
        }
        let name: String = match &self.tokens[self.pos + 1] {
            Token::IDENT(s) => s.clone(),
            _ => {
                return Err(ParseError::UnexpectedToken);
            },
        };
        if !(self.pos + 2 < self.tokens.len() && matches!(
            &self.tokens[self.pos + 2],
            Token::ASSIGN,
        )) {
            return Err(ParseError::UnexpectedToken);
        }
        self.pos = self.pos + 3;
        let value = match self.parse_expression(Precedence::Lowest) {
            Ok(v) => v,
            Err(e) => {
                return Err(e);
            },
        };
        if self.pos < self.tokens.len() && matches!(&self.tokens[self.pos], Token::SEMICOLON) {
            self.pos = self.pos + 1;
        }
        let ident = Node::Identifier { token: Token::IDENT(name.clone()), value: name };
        let node = Node::LetStatement {
            token: Token::LET,
            name: Box::new(ident),
            value: Box::new(value),
        };
        Ok(node)
    }

    /// Parse `return [EXPR] [;]`; a bare `return` is legal.
    #[verifier::rlimit(30)]
    pub fn parse_return_statement(&mut self) -> (r: Result<Node, ParseError>)
        requires
            old(self).wf(),
        ensures
            final(self).wf(),
            final(self)@.tokens == old(self)@.tokens,
            final(self)@.error == old(self)@.error,
            old(self)@.pos <= final(self)@.pos,
            r is Ok ==> old(self)@.pos < final(self)@.pos,
            agrees(spec_parse_return(old(self)@.tokens, old(self)@.pos), r, final(self)@.pos),
        decreases old(self)@.tokens.len() - old(self)@.pos, 1int,
    {
        if !(self.pos < self.tokens.len() && matches!(&self.tokens[self.pos], Token::RETURN)) {
            return Err(ParseError::UnexpectedToken);
        }
        if self.pos + 1 >= self.tokens.len() || matches!(
            &self.tokens[self.pos + 1],
            Token::SEMICOLON,
        ) || matches!(&self.tokens[self.pos + 1], Token::RBRACE) {
            if self.pos + 1 < self.tokens.len() && matches!(
                &self.tokens[self.pos + 1],
                Token::SEMICOLON,
            ) {
                self.pos = self.pos + 2;
            } else {
                self.pos = self.pos + 1;
            }
            proof {
                assert(opt_node_view(Option::None) is None);
            }
            return Ok(Node::ReturnStatement { token: Token::RETURN, value: None });
        }
        self.pos = self.pos + 1;
        let value = match self.parse_expression(Precedence::Lowest) {
            Ok(v) => v,
            Err(e) => {
                return Err(e);
            },
        };
        if self.pos < self.tokens.len() && matches!(&self.tokens[self.pos], Token::SEMICOLON) {
            self.pos = self.pos + 1;
        }
        let vb = Box::new(value);
        proof {
            assert(opt_node_view(Option::Some(vb)) == Option::Some(Box::new(node_view(*vb))));
        }
        Ok(Node::ReturnStatement { token: Token::RETURN, value: Some(vb) })
    }

    /// Parse `{ STATEMENT* }`.
    fn parse_block_statement(&mut self) -> (r: Result<Node, ParseError>)
        requires
            old(self).wf(),
        ensures
            final(self).wf(),
            final(self)@.tokens == old(self)@.tokens,
            final(self)@.error == old(self)@.error,
            old(self)@.pos <= final(self)@.pos,
            r is Ok ==> old(self)@.pos < final(self)@.pos,
            agrees(spec_parse_block(old(self)@.tokens, old(self)@.pos), r, final(self)@.pos),
        decreases old(self)@.tokens.len() - old(self)@.pos, 1int,
    {
        if !(self.pos < self.tokens.len() && matches!(&self.tokens[self.pos], Token::LBRACE)) {
            return Err(ParseError::UnexpectedToken);
        }
        let ghost t = self@.tokens;
        let ghost pos0 = self@.pos;
        self.pos = self.pos + 1;
        let mut statements: Vec<Box<Node>> = Vec::new();
        proof {
            assert(boxed_nodes_view(statements@) =~= Seq::<SpecNode>::empty());
        }
        loop
            invariant
                self.wf(),
                self@.tokens == t,
                t == old(self)@.tokens,
                pos0 == old(self)@.pos,
                0 <= pos0 < t.len(),
                t[pos0] is Lbrace,
                self@.error == old(self)@.error,
                pos0 < self@.pos,
                match spec_parse_block_items(t, self@.pos) {
                    ParsedSeq::FoundSeq { nodes, next } => spec_parse_block_items(t, pos0 + 1) == (
                    ParsedSeq::FoundSeq {
                        nodes: boxed_nodes_view(statements@) + nodes,
                        next,
                    }),
                    f => spec_parse_block_items(t, pos0 + 1) == f,
                },
            decreases self@.tokens.len() - self@.pos, 6int,
        {
            if self.pos >= self.tokens.len() {
                return Err(ParseError::UnexpectedToken);
            }
            if matches!(&self.tokens[self.pos], Token::RBRACE) {
                self.pos = self.pos + 1;
                proof {
                    assert(boxed_nodes_view(statements@) + Seq::<SpecNode>::empty()
                        =~= boxed_nodes_view(statements@));
                }
                return Ok(Node::BlockStatement { token: Token::LBRACE, statements });
            }
            let ghost p_before = self@.pos;
            match self.parse_statement() {
                Ok(stmt) => {
                    let ghost old_stmts = statements@;
                    let boxed = Box::new(stmt);
                    proof {
                        lemma_boxed_nodes_view_push(old_stmts, boxed);
                    }
                    statements.push(boxed);
                    proof {
                        match spec_parse_block_items(t, self@.pos) {
                            ParsedSeq::FoundSeq { nodes, next } => {
                                assert(boxed_nodes_view(old_stmts) + (seq![node_view(*boxed)]
                                    + nodes) =~= boxed_nodes_view(old_stmts.push(boxed)) + nodes);
                            },
                            _ => {},
                        }
                    }
                },
                Err(e) => {
                    return Err(e);
                },
            }
        }
    }

    /// Parse an expression at the given minimum binding power.
    pub fn parse_expression(&mut self, precedence: Precedence) -> (r: Result<Node, ParseError>)
        requires
            old(self).wf(),
        ensures
            final(self).wf(),
            final(self)@.tokens == old(self)@.tokens,
            final(self)@.error == old(self)@.error,
            old(self)@.pos <= final(self)@.pos,
            r is Ok ==> old(self)@.pos < final(self)@.pos,
            agrees(
                spec_parse_expression(old(self)@.tokens, old(self)@.pos, precedence.spec_rank()),
                r,
                final(self)@.pos,
            ),
        decreases old(self)@.tokens.len() - old(self)@.pos, 3int,
    {
        if self.pos >= self.tokens.len() {
            return Err(ParseError::MissingPrefixHandler);
        }
        let ghost t = self@.tokens;
        let ghost pos0 = self@.pos;
        let min: u8 = precedence.rank();
        let mut left = match self.prefix_parse() {
            Ok(n) => n,
            Err(e) => {
                return Err(e);
            },
        };
        loop
            invariant
                self.wf(),
                self@.tokens == t,
                t == old(self)@.tokens,
                pos0 == old(self)@.pos,
                self@.error == old(self)@.error,
                pos0 < self@.pos,
                min as int == precedence.spec_rank(),
                spec_parse_expression(t, pos0, min as int) == spec_parse_infix_loop(
                    t,
                    self@.pos,
                    min as int,
                    node_view(left),
                ),
            decreases self@.tokens.len() - self@.pos, 2int,
        {
            if self.pos >= self.tokens.len() {
                return Ok(left);
            }
            let applicable = {
                let tk = &self.tokens[self.pos];
                let is_bin = matches!(
                    tk,
                    Token::EQ | Token::NOT_EQ | Token::GT | Token::LT | Token::PLUS | Token::MINUS
                        | Token::ASTERISK | Token::SLASH,
                );
                let is_call = matches!(tk, Token::LPAREN);
                (is_bin || is_call) && token_precedence(tk).rank() > min
            };
            if !applicable {
                return Ok(left);
            }
            match self.infix_parse(left) {
                Ok(n) => {
                    left = n;
                },
                Err(e) => {
                    return Err(e);
                },
            }
        }
    }

    /// Apply the prefix rule of the current token.
    fn prefix_parse(&mut self) -> (r: Result<Node, ParseError>)
        requires
            old(self).wf(),
        ensures
            final(self).wf(),
            final(self)@.tokens == old(self)@.tokens,
            final(self)@.error == old(self)@.error,
            old(self)@.pos <= final(self)@.pos,
            r is Ok ==> old(self)@.pos < final(self)@.pos,
            agrees(spec_parse_prefix(old(self)@.tokens, old(self)@.pos), r, final(self)@.pos),
        decreases old(self)@.tokens.len() - old(self)@.pos, 2int,
    {
        if self.pos >= self.tokens.len() {
            return Err(ParseError::MissingPrefixHandler);
        }
        match &self.tokens[self.pos] {
            Token::IDENT(name) => {
                let value = name.clone();
                let node = Node::Identifier { token: Token::IDENT(value.clone()), value };
                self.pos = self.pos + 1;
                Ok(node)
            },
            Token::INT(_) => self.parse_integer_literal(),
            Token::TRUE => {
                self.pos = self.pos + 1;
                Ok(Node::Boolean { token: Token::TRUE, value: true })
            },
            Token::FALSE => {
                self.pos = self.pos + 1;
                Ok(Node::Boolean { token: Token::FALSE, value: false })
            },
            Token::MINUS => self.parse_prefix_expression(),
            Token::BANG => self.parse_prefix_expression(),
            Token::LPAREN => {
                self.pos = self.pos + 1;
                let inner = match self.parse_expression(Precedence::Lowest) {
                    Ok(v) => v,
                    Err(e) => {
                        return Err(e);
                    },
                };
                if self.pos < self.tokens.len() && matches!(&self.tokens[self.pos], Token::RPAREN) {
                    self.pos = self.pos + 1;
                    Ok(inner)
                } else {
                    Err(ParseError::UnexpectedToken)
                }
            },
            Token::FUNCTION => self.parse_function_literal(),
            Token::IF => self.parse_if_expression(),
            _ => Err(ParseError::MissingPrefixHandler),
        }
    }

    /// Parse the integer literal at the current token.
    pub fn parse_integer_literal(&mut self) -> (r: Result<Node, ParseError>)
        requires
            old(self).wf(),
            old(self)@.pos < old(self)@.tokens.len(),
            old(self)@.tokens[old(self)@.pos] is Int,
        ensures
            final(self).wf(),
            final(self)@.tokens == old(self)@.tokens,
            final(self)@.error == old(self)@.error,
            old(self)@.pos < final(self)@.pos,
            r is Ok,
            agrees(spec_parse_prefix(old(self)@.tokens, old(self)@.pos), r, final(self)@.pos),
        decreases old(self)@.tokens.len() - old(self)@.pos, 0int,
    {
        let v: i64 = match &self.tokens[self.pos] {
            Token::INT(i) => *i,
            _ => {
                proof {
                    assert(false);
                }
                0
            },
        };
        self.pos = self.pos + 1;
        Ok(Node::IntegerLiteral { token: Token::INT(v), value: v })
    }

    /// Parse `-` or `!` applied to an operand at prefix precedence.
    fn parse_prefix_expression(&mut self) -> (r: Result<Node, ParseError>)
        requires
            old(self).wf(),
            old(self)@.pos < old(self)@.tokens.len(),
            old(self)@.tokens[old(self)@.pos] is Minus || old(self)@.tokens[old(self)@.pos]
                is Bang,
        ensures
            final(self).wf(),
            final(self)@.tokens == old(self)@.tokens,
            final(self)@.error == old(self)@.error,
            old(self)@.pos <= final(self)@.pos,
            r is Ok ==> old(self)@.pos < final(self)@.pos,
            agrees(
                spec_parse_prefix_op(old(self)@.tokens, old(self)@.pos),
                r,
                final(self)@.pos,
            ),
        decreases old(self)@.tokens.len() - old(self)@.pos, 1int,
    {
        let tok = self.tokens[self.pos].clone();
        let operator = Parser::operator_from_tok(&tok);
        self.pos = self.pos + 1;
        match self.parse_expression(Precedence::Prefix) {
            Ok(rhs) => {
                let rb = Box::new(rhs);
                proof {
                    assert(opt_node_view(Option::Some(rb)) == Option::Some(
                        Box::new(node_view(*rb)),
                    ));
                }
                Ok(Node::PrefixExpression { token: tok, operator, right: Some(rb) })
            },
            Err(_) => Err(ParseError::MissingOperand),
        }
    }

    /// Apply the infix rule of the operator at the current position to the
    /// expression parsed so far.
    fn infix_parse(&mut self, left: Node) -> (r: Result<Node, ParseError>)
        requires
            old(self).wf(),
            old(self)@.pos < old(self)@.tokens.len(),
            has_infix(old(self)@.tokens[old(self)@.pos]),
        ensures
            final(self).wf(),
            final(self)@.tokens == old(self)@.tokens,
            final(self)@.error == old(self)@.error,
            old(self)@.pos <= final(self)@.pos,
            r is Ok ==> old(self)@.pos < final(self)@.pos,
            agrees(
                spec_infix_step(old(self)@.tokens, old(self)@.pos, node_view(left)),
                r,
                final(self)@.pos,
            ),
        decreases old(self)@.tokens.len() - old(self)@.pos, 2int,
    {
        if matches!(&self.tokens[self.pos], Token::LPAREN) {
            self.parse_call_expression(left)
        } else {
            self.parse_infix_expression(left)
        }
    }

    /// Parse the right operand of the binary operator at the current
    /// position and combine it with `left`.
    fn parse_infix_expression(&mut self, left: Node) -> (r: Result<Node, ParseError>)
        requires
            old(self).wf(),
            old(self)@.pos < old(self)@.tokens.len(),
            is_binary_op(old(self)@.tokens[old(self)@.pos]),
        ensures
            final(self).wf(),
            final(self)@.tokens == old(self)@.tokens,
            final(self)@.error == old(self)@.error,
            old(self)@.pos <= final(self)@.pos,
            r is Ok ==> old(self)@.pos < final(self)@.pos,
            agrees(
                spec_infix_step(old(self)@.tokens, old(self)@.pos, node_view(left)),
                r,
                final(self)@.pos,
            ),
        decreases old(self)@.tokens.len() - old(self)@.pos, 1int,
    {
        let tok = self.tokens[self.pos].clone();
        let operator = Parser::operator_from_tok(&tok);
        let precedence = self.cur_precedence();
        self.pos = self.pos + 1;
        match self.parse_expression(precedence) {
            Ok(rhs) => {
                let rb = Box::new(rhs);
                proof {
                    assert(opt_node_view(Option::Some(rb)) == Option::Some(
                        Box::new(node_view(*rb)),
                    ));
                }
                Ok(
                    Node::InfixExpression {
                        token: tok,
                        operator,
                        left: Box::new(left),
                        right: Some(rb),
                    },
                )
            },
            Err(_) => Err(ParseError::MissingOperand),
        }
    }

    /// Parse the argument list following `(` and apply it to `left` as a
    /// call.
    pub fn parse_call_expression(&mut self, left: Node) -> (r: Result<Node, ParseError>)
        requires
            old(self).wf(),
            old(self)@.pos < old(self)@.tokens.len(),
            old(self)@.tokens[old(self)@.pos] is Lparen,
        ensures
            final(self).wf(),
            final(self)@.tokens == old(self)@.tokens,
            final(self)@.error == old(self)@.error,
            old(self)@.pos <= final(self)@.pos,
            r is Ok ==> old(self)@.pos < final(self)@.pos,
            agrees(
                spec_infix_step(old(self)@.tokens, old(self)@.pos, node_view(left)),
                r,
                final(self)@.pos,
            ),
        decreases old(self)@.tokens.len() - old(self)@.pos, 1int,
    {
        self.pos = self.pos + 1;
        match self.parse_call_arguments() {
            Ok(arguments) => Ok(
                Node::CallExpression {
                    token: Token::LPAREN,
                    fn_name: Box::new(left),
                    parameters: arguments,
                },
            ),
            Err(e) => Err(e),
        }
    }

    /// Parse comma-separated call arguments up to and including the
    /// closing `)`.
    fn parse_call_arguments(&mut self) -> (r: Result<Vec<Node>, ParseError>)
        requires
            old(self).wf(),
        ensures
            final(self).wf(),
            final(self)@.tokens == old(self)@.tokens,
            final(self)@.error == old(self)@.error,
            old(self)@.pos <= final(self)@.pos,
            r is Ok ==> old(self)@.pos < final(self)@.pos,
            agrees_seq(
                spec_parse_call_args(old(self)@.tokens, old(self)@.pos),
                r,
                final(self)@.pos,
            ),
        decreases old(self)@.tokens.len() - old(self)@.pos, 4int,
    {
        if self.pos >= self.tokens.len() {
            return Err(ParseError::UnexpectedToken);
        }
        let ghost t = self@.tokens;
        let ghost pos0 = self@.pos;
        let mut arguments: Vec<Node> = Vec::new();
        if matches!(&self.tokens[self.pos], Token::RPAREN) {
            self.pos = self.pos + 1;
            proof {
                assert(nodes_view(arguments@) =~= Seq::<SpecNode>::empty());
            }
            return Ok(arguments);
        }
        match self.parse_expression(Precedence::Lowest) {
            Ok(a) => {
                proof {
                    lemma_nodes_view_push(arguments@, a);
                    assert(arguments@.push(a) =~= seq![a]);
                    assert(nodes_view(arguments@) =~= Seq::<SpecNode>::empty());
                }
                arguments.push(a);
            },
            Err(e) => {
                return Err(e);
            },
        }
        loop
            invariant
                self.wf(),
                self@.tokens == t,
                t == old(self)@.tokens,
                pos0 == old(self)@.pos,
                self@.error == old(self)@.error,
                pos0 < self@.pos,
                match spec_parse_call_args_more(t, self@.pos) {
                    ParsedSeq::FoundSeq { nodes, next } => spec_parse_call_args(t, pos0) == (
                    ParsedSeq::FoundSeq { nodes: nodes_view(arguments@) + nodes, next }),
                    f => spec_parse_call_args(t, pos0) == f,
                },
            decreases self@.tokens.len() - self@.pos, 0int,
        {
            if self.pos >= self.tokens.len() {
                return Err(ParseError::UnexpectedToken);
            }
            if matches!(&self.tokens[self.pos], Token::RPAREN) {
                self.pos = self.pos + 1;
                proof {
                    assert(nodes_view(arguments@) + Seq::<SpecNode>::empty() =~= nodes_view(
                        arguments@,
                    ));
                }
                return Ok(arguments);
            }
            if !matches!(&self.tokens[self.pos], Token::COMMA) {
                return Err(ParseError::UnexpectedToken);
            }
            self.pos = self.pos + 1;
            match self.parse_expression(Precedence::Lowest) {
                Ok(a) => {
                    let ghost old_args = arguments@;
                    proof {
                        lemma_nodes_view_push(old_args, a);
                    }
                    arguments.push(a);
                    proof {
                        match spec_parse_call_args_more(t, self@.pos) {
                            ParsedSeq::FoundSeq { nodes, next } => {
                                assert(nodes_view(old_args) + (seq![node_view(a)] + nodes)
                                    =~= nodes_view(old_args.push(a)) + nodes);
                            },
                            _ => {},
                        }
                    }
                },
                Err(e) => {
                    return Err(e);
                },
            }
        }
    }

    /// Parse `fn [IDENT] ( PARAMS ) { BODY }`. A name after `fn`, when
    /// present, becomes the node's token.
    pub fn parse_function_literal(&mut self) -> (r: Result<Node, ParseError>)
        requires
            old(self).wf(),
        ensures
            final(self).wf(),
            final(self)@.tokens == old(self)@.tokens,
            final(self)@.error == old(self)@.error,
            old(self)@.pos <= final(self)@.pos,
            r is Ok ==> old(self)@.pos < final(self)@.pos,
            agrees(
                spec_parse_function_literal(old(self)@.tokens, old(self)@.pos),
                r,
                final(self)@.pos,
            ),
        decreases old(self)@.tokens.len() - old(self)@.pos, 1int,
    {
        if !(self.pos < self.tokens.len() && matches!(&self.tokens[self.pos], Token::FUNCTION)) {
            return Err(ParseError::UnexpectedToken);
        }
        let ftoken: Token = if self.pos + 1 < self.tokens.len() && matches!(
            &self.tokens[self.pos + 1],
            Token::IDENT(_),
        ) {
            let named = self.tokens[self.pos + 1].clone();
            self.pos = self.pos + 2;
            named
        } else {
            self.pos = self.pos + 1;
            Token::FUNCTION
        };
        if !(self.pos < self.tokens.len() && matches!(&self.tokens[self.pos], Token::LPAREN)) {
            return Err(ParseError::UnexpectedToken);
        }
        self.pos = self.pos + 1;
        let parameters = match self.parse_function_parameters() {
            Ok(v) => v,
            Err(e) => {
                return Err(e);
            },
        };
        if !(self.pos < self.tokens.len() && matches!(&self.tokens[self.pos], Token::LBRACE)) {
            return Err(ParseError::UnexpectedToken);
        }
        let body = match self.parse_block_statement() {
            Ok(b) => b,
            Err(e) => {
                return Err(e);
            },
        };
        Ok(Node::FunctionLiteral { token: ftoken, parameters, body: Box::new(body) })
    }

    /// Parse comma-separated bare-identifier parameters up to and
    /// including the closing `)`.
    pub fn parse_function_parameters(&mut self) -> (r: Result<Vec<Node>, ParseError>)
        requires
            old(self).wf(),
        ensures
            final(self).wf(),
            final(self)@.tokens == old(self)@.tokens,
            final(self)@.error == old(self)@.error,
            old(self)@.pos <= final(self)@.pos,
            r is Ok ==> old(self)@.pos < final(self)@.pos,
            agrees_seq(
                spec_parse_fn_params(old(self)@.tokens, old(self)@.pos),
                r,
                final(self)@.pos,
            ),
        decreases old(self)@.tokens.len() - old(self)@.pos, 0int,
    {
        if self.pos >= self.tokens.len() {
            return Err(ParseError::UnexpectedToken);
        }
        let ghost t = self@.tokens;
        let ghost pos0 = self@.pos;
        let mut identifiers: Vec<Node> = Vec::new();
        if matches!(&self.tokens[self.pos], Token::RPAREN) {
            self.pos = self.pos + 1;
            proof {
                assert(nodes_view(identifiers@) =~= Seq::<SpecNode>::empty());
            }
            return Ok(identifiers);
        }
        match &self.tokens[self.pos] {
            Token::IDENT(s) => {
                let value = s.clone();
                let node = Node::Identifier { token: Token::IDENT(value.clone()), value };
                proof {
                    lemma_nodes_view_push(identifiers@, node);
                    assert(identifiers@.push(node) =~= seq![node]);
                    assert(nodes_view(identifiers@) =~= Seq::<SpecNode>::empty());
                }
                identifiers.push(node);
                self.pos = self.pos + 1;
            },
            _ => {
                return Err(ParseError::UnexpectedToken);
            },
        }
        loop
            invariant
                self.wf(),
                self@.tokens == t,
                t == old(self)@.tokens,
                pos0 == old(self)@.pos,
                self@.error == old(self)@.error,
                pos0 < self@.pos,
                match spec_parse_fn_params_more(t, self@.pos) {
                    ParsedSeq::FoundSeq { nodes, next } => spec_parse_fn_params(t, pos0) == (
                    ParsedSeq::FoundSeq { nodes: nodes_view(identifiers@) + nodes, next }),
                    f => spec_parse_fn_params(t, pos0) == f,
                },
            decreases self@.tokens.len() - self@.pos, 0int,
        {
            if self.pos >= self.tokens.len() {
                return Err(ParseError::UnexpectedToken);
            }
            if matches!(&self.tokens[self.pos], Token::RPAREN) {
                self.pos = self.pos + 1;
                proof {
                    assert(nodes_view(identifiers@) + Seq::<SpecNode>::empty() =~= nodes_view(
                        identifiers@,
                    ));
                }
                return Ok(identifiers);
            }
            if !matches!(&self.tokens[self.pos], Token::COMMA) {
                return Err(ParseError::UnexpectedToken);
            }
            if self.pos + 1 >= self.tokens.len() {
                return Err(ParseError::UnexpectedToken);
            }
            match &self.tokens[self.pos + 1] {
                Token::IDENT(s) => {
                    let value = s.clone();
                    let node = Node::Identifier { token: Token::IDENT(value.clone()), value };
                    let ghost old_ids = identifiers@;
                    proof {
                        lemma_nodes_view_push(old_ids, node);
                    }
                    identifiers.push(node);
                    self.pos = self.pos + 2;
                    proof {
                        match spec_parse_fn_params_more(t, self@.pos) {
                            ParsedSeq::FoundSeq { nodes, next } => {
                                assert(nodes_view(old_ids) + (seq![node_view(node)] + nodes)
                                    =~= nodes_view(old_ids.push(node)) + nodes);
                            },
                            _ => {},
                        }
                    }
                },
                _ => {
                    return Err(ParseError::UnexpectedToken);
                },
            }
        }
    }

    /// Parse `if ( COND ) { CONSEQUENCE } [else { ALTERNATIVE }]`.
    fn parse_if_expression(&mut self) -> (r: Result<Node, ParseError>)
        requires
            old(self).wf(),
        ensures
            final(self).wf(),
            final(self)@.tokens == old(self)@.tokens,
            final(self)@.error == old(self)@.error,
            old(self)@.pos <= final(self)@.pos,
            r is Ok ==> old(self)@.pos < final(self)@.pos,
            agrees(spec_parse_if(old(self)@.tokens, old(self)@.pos), r, final(self)@.pos),
        decreases old(self)@.tokens.len() - old(self)@.pos, 1int,
    {
        if !(self.pos < self.tokens.len() && matches!(&self.tokens[self.pos], Token::IF)) {
            return Err(ParseError::UnexpectedToken);
        }
        if !(self.pos + 1 < self.tokens.len() && matches!(
            &self.tokens[self.pos + 1],
            Token::LPAREN,
        )) {
            return Err(ParseError::UnexpectedToken);
        }
        self.pos = self.pos + 2;
        let condition = match self.parse_expression(Precedence::Lowest) {
            Ok(c) => c,
            Err(e) => {
                return Err(e);
            },
        };
        if !(self.pos < self.tokens.len() && matches!(&self.tokens[self.pos], Token::RPAREN)) {
            return Err(ParseError::UnexpectedToken);
        }
        self.pos = self.pos + 1;
        if !(self.pos < self.tokens.len() && matches!(&self.tokens[self.pos], Token::LBRACE)) {
            return Err(ParseError::UnexpectedToken);
        }
        let consequence = match self.parse_block_statement() {
            Ok(b) => b,
            Err(e) => {
                return Err(e);
            },
        };
        if self.pos < self.tokens.len() && matches!(&self.tokens[self.pos], Token::ELSE) {
            if !(self.pos + 1 < self.tokens.len() && matches!(
                &self.tokens[self.pos + 1],
                Token::LBRACE,
            )) {
                return Err(ParseError::UnexpectedToken);
            }
            self.pos = self.pos + 1;
            let alternative = match self.parse_block_statement() {
                Ok(b) => b,
                Err(e) => {
                    return Err(e);
                },
            };
            let ab = Box::new(alternative);
            proof {
                assert(opt_node_view(Option::Some(ab)) == Option::Some(
                    Box::new(node_view(*ab)),
                ));
            }
            Ok(
                Node::IfExpression {
                    token: Token::IF,
                    condition: Box::new(condition),
                    consequence: Box::new(consequence),
                    alternative: Some(ab),
                },
            )
        } else {
            proof {
                assert(opt_node_view(Option::None) is None);
            }
            Ok(
                Node::IfExpression {
                    token: Token::IF,
                    condition: Box::new(condition),
                    consequence: Box::new(consequence),
                    alternative: None,
                },
            )
        }
    }
}

} // verus!

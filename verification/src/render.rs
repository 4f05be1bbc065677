//! Text rendering of syntax trees, and the round-trip law: re-parsing the
//! rendering of an expression evaluates to the same outcome as the
//! original tree.
//!
//! A renderer is defined for the node kinds the evaluator gives rules to:
//! integer and boolean literals, prefix and infix expressions,
//! conditionals, and the blocks inside them. Composite expressions are
//! rendered fully parenthesized, so the rendering carries its own
//! grouping; the tokens are joined with single spaces. The one integer
//! without a rendering is the minimum `i64`, whose magnitude is not a
//! valid literal.

use crate::ast::{node_view, opt_node_view, Node, SpecNode};
use crate::object::{dec_chars_nat, i64_magnitude, u64_to_string};
use crate::token::{str_eq, Token, TokenV};
use vstd::prelude::*;

verus! {

/// The token an infix operator name renders to.
pub open spec fn op_token(op: Seq<char>) -> Option<TokenV> {
    if op == "PLUS"@ {
        Option::Some(TokenV::Plus)
    } else if op == "MINUS"@ {
        Option::Some(TokenV::Minus)
    } else if op == "ASTERISK"@ {
        Option::Some(TokenV::Asterisk)
    } else if op == "SLASH"@ {
        Option::Some(TokenV::Slash)
    } else if op == "GT"@ {
        Option::Some(TokenV::Gt)
    } else if op == "LT"@ {
        Option::Some(TokenV::Lt)
    } else if op == "EQ"@ {
        Option::Some(TokenV::Equal)
    } else if op == "NOT_EQ"@ {
        Option::Some(TokenV::NotEqual)
    } else {
        Option::None
    }
}

/// The token a prefix operator name renders to.
pub open spec fn prefix_op_token(op: Seq<char>) -> Option<TokenV> {
    if op == "MINUS"@ {
        Option::Some(TokenV::Minus)
    } else if op == "BANG"@ {
        Option::Some(TokenV::Bang)
    } else {
        Option::None
    }
}

/// Token rendering of one node, fully parenthesized; `None` for node kinds
/// without a renderer, for absent operands, and for the minimum `i64`.
pub open spec fn render_tokens(n: SpecNode) -> Option<Seq<TokenV>>
    decreases n, 1int,
{
    match n {
        SpecNode::IntLit { value } => {
            if value >= 0 {
                Option::Some(seq![TokenV::Int(value)])
            } else if value == i64::MIN {
                Option::None
            } else {
                Option::Some(
                    seq![
                        TokenV::Lparen,
                        TokenV::Minus,
                        TokenV::Int((-(value as int)) as i64),
                        TokenV::Rparen,
                    ],
                )
            }
        },
        SpecNode::BoolLit { value } => {
            if value {
                Option::Some(seq![TokenV::True])
            } else {
                Option::Some(seq![TokenV::False])
            }
        },
        SpecNode::Prefix { operator, right } => match (prefix_op_token(operator), right) {
            (Option::Some(op), Option::Some(r)) => if *r is Block {
                Option::None
            } else {
                match render_tokens(*r) {
                    Option::Some(rt) => Option::Some(
                        seq![TokenV::Lparen, op] + rt + seq![TokenV::Rparen],
                    ),
                    Option::None => Option::None,
                }
            },
            _ => Option::None,
        },
        SpecNode::Infix { operator, left, right } => match (op_token(operator), right) {
            (Option::Some(op), Option::Some(r)) => if *left is Block || *r is Block {
                Option::None
            } else {
                match (render_tokens(*left), render_tokens(*r)) {
                    (Option::Some(lt), Option::Some(rt)) => Option::Some(
                        seq![TokenV::Lparen] + lt + seq![op] + rt + seq![TokenV::Rparen],
                    ),
                    _ => Option::None,
                }
            },
            _ => Option::None,
        },
        SpecNode::If { condition, consequence, alternative } => if *condition is Block || !(
        *consequence is Block) || (alternative matches Option::Some(a) && !(*a is Block)) {
            Option::None
        } else {
            match (render_tokens(*condition), render_tokens(*consequence)) {
                (Option::Some(ct), Option::Some(qt)) => match alternative {
                    Option::Some(a) => match render_tokens(*a) {
                        Option::Some(at) => Option::Some(
                            seq![TokenV::If, TokenV::Lparen] + ct + seq![TokenV::Rparen] + qt
                                + seq![TokenV::Else] + at,
                        ),
                        Option::None => Option::None,
                    },
                    Option::None => Option::Some(
                        seq![TokenV::If, TokenV::Lparen] + ct + seq![TokenV::Rparen] + qt,
                    ),
                },
                _ => Option::None,
            }
        },
        SpecNode::Block { statements } => match render_stmts(statements) {
            Option::Some(st) => Option::Some(seq![TokenV::Lbrace] + st + seq![TokenV::Rbrace]),
            Option::None => Option::None,
        },
        _ => Option::None,
    }
}

/// Token rendering of a statement list: each statement's rendering
/// followed by a semicolon.
pub open spec fn render_stmts(stmts: Seq<SpecNode>) -> Option<Seq<TokenV>>
    decreases stmts, 0int,
{
    if stmts.len() == 0 {
        Option::Some(Seq::empty())
    } else if stmts[0] is Block {
        Option::None
    } else {
        match (render_tokens(stmts[0]), render_stmts(stmts.drop_first())) {
            (Option::Some(h), Option::Some(t)) => Option::Some(h + seq![TokenV::Semicolon] + t),
            _ => Option::None,
        }
    }
}

/// The source text of one token; identifiers and literals carry their own
/// text.
pub open spec fn token_text(t: TokenV) -> Seq<char> {
    match t {
        TokenV::Ident(s) => s,
        TokenV::Int(v) => if v >= 0 {
            dec_chars_nat(v as nat)
        } else {
            Seq::empty()
        },
        TokenV::StrLit(s) => s,
        TokenV::Assign => "="@,
        TokenV::Plus => "+"@,
        TokenV::Minus => "-"@,
        TokenV::Gt => ">"@,
        TokenV::Lt => "<"@,
        TokenV::Bang => "!"@,
        TokenV::Asterisk => "*"@,
        TokenV::Slash => "/"@,
        TokenV::Equal => "=="@,
        TokenV::NotEqual => "!="@,
        TokenV::Comma => ","@,
        TokenV::Semicolon => ";"@,
        TokenV::Lparen => "("@,
        TokenV::Rparen => ")"@,
        TokenV::Lbrace => "{"@,
        TokenV::Rbrace => "}"@,
        TokenV::Function => "fn"@,
        TokenV::Let => "let"@,
        TokenV::While => "while"@,
        TokenV::For => "for"@,
        TokenV::Loop => "loop"@,
        TokenV::True => "true"@,
        TokenV::False => "false"@,
        TokenV::Return => "return"@,
        TokenV::If => "if"@,
        TokenV::Else => "else"@,
        TokenV::Illegal => Seq::empty(),
        TokenV::Eof => Seq::empty(),
    }
}

/// Token texts joined with single spaces.
pub open spec fn spaced(ts: Seq<TokenV>) -> Seq<char>
    decreases ts.len(),
{
    if ts.len() == 0 {
        Seq::empty()
    } else if ts.len() == 1 {
        token_text(ts[0])
    } else {
        token_text(ts[0]) + seq![' '] + spaced(ts.drop_first())
    }
}

/// Text rendering of one node: its token rendering, spaced.
pub open spec fn spec_render_text(n: SpecNode) -> Option<Seq<char>> {
    match render_tokens(n) {
        Option::Some(ts) => Option::Some(spaced(ts)),
        Option::None => Option::None,
    }
}

/// Appending one token extends the spaced text by a space and its text,
/// except at the front.
pub proof fn lemma_spaced_push(ts: Seq<TokenV>, t: TokenV)
    ensures
        ts.len() == 0 ==> spaced(ts.push(t)) == token_text(t),
        ts.len() > 0 ==> spaced(ts.push(t)) == spaced(ts) + seq![' '] + token_text(t),
    decreases ts.len(),
{
    if ts.len() == 0 {
        assert(ts.push(t)[0] == t);
    } else {
        assert(ts.push(t).drop_first() =~= ts.drop_first().push(t));
        lemma_spaced_push(ts.drop_first(), t);
        assert(ts.push(t)[0] == ts[0]);
        if ts.len() == 1 {
            assert(spaced(ts.push(t)) == token_text(ts[0]) + seq![' '] + token_text(t));
            assert(spaced(ts) == token_text(ts[0]));
        } else {
            assert(spaced(ts.push(t)) == token_text(ts[0]) + seq![' '] + (spaced(ts.drop_first())
                + seq![' '] + token_text(t)));
            assert(token_text(ts[0]) + seq![' '] + (spaced(ts.drop_first()) + seq![' ']
                + token_text(t)) =~= (token_text(ts[0]) + seq![' '] + spaced(ts.drop_first()))
                + seq![' '] + token_text(t));
        }
    }
}

/// Image of a sequence of tokens.
pub open spec fn token_seq_view(s: Seq<Token>) -> Seq<TokenV>
    decreases s,
{
    if s.len() == 0 {
        Seq::empty()
    } else {
        seq![s[0]@] + token_seq_view(s.drop_first())
    }
}

/// `token_seq_view` agrees with viewing each element.
pub proof fn lemma_token_seq_view_len(s: Seq<Token>)
    ensures
        token_seq_view(s).len() == s.len(),
        forall|i: int| 0 <= i < s.len() ==> token_seq_view(s)[i] == s[i]@,
    decreases s.len(),
{
    if s.len() > 0 {
        lemma_token_seq_view_len(s.drop_first());
    }
}

/// Appending one token extends the image by that token's image.
pub proof fn lemma_token_seq_view_push(s: Seq<Token>, t: Token)
    ensures
        token_seq_view(s.push(t)) == token_seq_view(s) + seq![t@],
    decreases s.len(),
{
    if s.len() == 0 {
        reveal_with_fuel(token_seq_view, 2);
        assert(s.push(t)[0] == t);
        assert(s.push(t).drop_first() =~= Seq::<Token>::empty());
        assert(token_seq_view(s.push(t)) =~= token_seq_view(s) + seq![t@]);
    } else {
        assert(s.push(t)[0] == s[0]);
        assert(s.push(t).drop_first() =~= s.drop_first().push(t));
        lemma_token_seq_view_push(s.drop_first(), t);
        assert(token_seq_view(s.push(t)) == seq![s[0]@] + (token_seq_view(s.drop_first())
            + seq![t@]));
        assert(seq![s[0]@] + (token_seq_view(s.drop_first()) + seq![t@]) =~= (seq![s[0]@]
            + token_seq_view(s.drop_first())) + seq![t@]);
    }
}

/// `token_seq_view` distributes over concatenation.
pub proof fn lemma_token_seq_view_concat(a: Seq<Token>, b: Seq<Token>)
    ensures
        token_seq_view(a + b) == token_seq_view(a) + token_seq_view(b),
    decreases a.len(),
{
    if a.len() == 0 {
        assert(a + b =~= b);
        assert(token_seq_view(a) + token_seq_view(b) =~= token_seq_view(b));
    } else {
        assert((a + b).len() > 0);
        assert((a + b)[0] == a[0]);
        assert((a + b).drop_first() =~= a.drop_first() + b);
        lemma_token_seq_view_concat(a.drop_first(), b);
        assert(token_seq_view(a + b) == seq![a[0]@] + (token_seq_view(a.drop_first())
            + token_seq_view(b)));
        assert(seq![a[0]@] + (token_seq_view(a.drop_first()) + token_seq_view(b)) =~= (seq![a[0]@]
            + token_seq_view(a.drop_first())) + token_seq_view(b));
    }
}

/// Append one token, tracking the image.
fn push_tok(v: &mut Vec<Token>, t: Token)
    ensures
        final(v)@ == old(v)@.push(t),
        token_seq_view(final(v)@) == token_seq_view(old(v)@) + seq![t@],
{
    let ghost vb = v@;
    let ghost tv = t@;
    v.push(t);
    proof {
        lemma_token_seq_view_push(vb, v@[vb.len() as int]);
    }
}

/// Append a whole rendering, tracking the image.
fn append_toks(v: &mut Vec<Token>, other: Vec<Token>)
    ensures
        final(v)@ == old(v)@ + other@,
        token_seq_view(final(v)@) == token_seq_view(old(v)@) + token_seq_view(other@),
{
    let ghost vb = v@;
    let ghost ob = other@;
    let mut o = other;
    v.append(&mut o);
    proof {
        lemma_token_seq_view_concat(vb, ob);
    }
}

/// The source text of one token.
pub fn token_to_text(t: &Token) -> (s: String)
    ensures
        s@ == token_text(t@),
{
    match t {
        Token::IDENT(w) => w.clone(),
        Token::STRING(w) => w.clone(),
        Token::INT(v) => {
            if *v >= 0 {
                u64_to_string(i64_magnitude(*v))
            } else {
                String::new()
            }
        },
        Token::ASSIGN => "=".to_owned(),
        Token::PLUS => "+".to_owned(),
        Token::MINUS => "-".to_owned(),
        Token::GT => ">".to_owned(),
        Token::LT => "<".to_owned(),
        Token::BANG => "!".to_owned(),
        Token::ASTERISK => "*".to_owned(),
        Token::SLASH => "/".to_owned(),
        Token::EQ => "==".to_owned(),
        Token::NOT_EQ => "!=".to_owned(),
        Token::COMMA => ",".to_owned(),
        Token::SEMICOLON => ";".to_owned(),
        Token::LPAREN => "(".to_owned(),
        Token::RPAREN => ")".to_owned(),
        Token::LBRACE => "{".to_owned(),
        Token::RBRACE => "}".to_owned(),
        Token::FUNCTION => "fn".to_owned(),
        Token::LET => "let".to_owned(),
        Token::WHILE => "while".to_owned(),
        Token::FOR => "for".to_owned(),
        Token::LOOP => "loop".to_owned(),
        Token::TRUE => "true".to_owned(),
        Token::FALSE => "false".to_owned(),
        Token::RETURN => "return".to_owned(),
        Token::IF => "if".to_owned(),
        Token::ELSE => "else".to_owned(),
        Token::ILLEGAL => String::new(),
        Token::EOF => String::new(),
    }
}

/// Join token texts with single spaces.
pub fn tokens_to_text(tokens: &Vec<Token>) -> (s: String)
    ensures
        s@ == spaced(token_seq_view(tokens@)),
{
    let ghost all = token_seq_view(tokens@);
    proof {
        lemma_token_seq_view_len(tokens@);
        assert(all.take(0) =~= Seq::<TokenV>::empty());
    }
    let mut s = String::new();
    let mut i: usize = 0;
    loop
        invariant
            all == token_seq_view(tokens@),
            all.len() == tokens@.len(),
            forall|k: int| 0 <= k < all.len() ==> all[k] == tokens@[k]@,
            0 <= i <= tokens@.len(),
            s@ == spaced(all.take(i as int)),
        ensures
            s@ == spaced(all),
        decreases tokens@.len() - i,
    {
        if i >= tokens.len() {
            proof {
                assert(all.take(all.len() as int) =~= all);
            }
            break ;
        }
        let t = token_to_text(&tokens[i]);
        if i > 0 {
            s.append(" ");
        }
        s.append(t.as_str());
        proof {
            reveal_strlit(" ");
            assert(all.take(i as int).push(all[i as int]) =~= all.take(i as int + 1));
            lemma_spaced_push(all.take(i as int), all[i as int]);
            if i > 0 {
                assert(s@ =~= spaced(all.take(i as int)) + seq![' '] + token_text(all[i as int]));
            } else {
                assert(s@ =~= token_text(all[i as int]));
            }
        }
        i = i + 1;
    }
    s
}

/// The token an infix operator name renders to.
fn infix_op_token_exec(operator: &str) -> (r: Option<Token>)
    ensures
        match op_token(operator@) {
            Option::Some(tv) => r matches Option::Some(t) && t@ == tv,
            Option::None => r is None,
        },
{
    if str_eq(operator, "PLUS") {
        Some(Token::PLUS)
    } else if str_eq(operator, "MINUS") {
        Some(Token::MINUS)
    } else if str_eq(operator, "ASTERISK") {
        Some(Token::ASTERISK)
    } else if str_eq(operator, "SLASH") {
        Some(Token::SLASH)
    } else if str_eq(operator, "GT") {
        Some(Token::GT)
    } else if str_eq(operator, "LT") {
        Some(Token::LT)
    } else if str_eq(operator, "EQ") {
        Some(Token::EQ)
    } else if str_eq(operator, "NOT_EQ") {
        Some(Token::NOT_EQ)
    } else {
        None
    }
}

/// Token rendering of a vector of statements: each statement's rendering
/// followed by a semicolon.
fn render_stmt_list(statements: &Vec<Box<Node>>) -> (r: Option<Vec<Token>>)
    ensures
        match render_stmts(crate::ast::boxed_nodes_view(statements@)) {
            Option::Some(ts) => r matches Option::Some(v) && token_seq_view(v@) == ts,
            Option::None => r is None,
        },
    decreases statements@, 2int,
{
    let ghost stmts = crate::ast::boxed_nodes_view(statements@);
    proof {
        crate::ast::lemma_boxed_nodes_view_len(statements@);
        assert(stmts.skip(0) =~= stmts);
    }
    let mut v: Vec<Token> = Vec::new();
    proof {
        assert(token_seq_view(v@) =~= Seq::<TokenV>::empty());
        assert(Seq::<TokenV>::empty() + render_stmts(stmts)->Some_0 =~= render_stmts(
            stmts,
        )->Some_0);
    }
    let n = statements.len();
    let mut i: usize = 0;
    loop
        invariant
            stmts == crate::ast::boxed_nodes_view(statements@),
            stmts.len() == statements@.len(),
            forall|k: int| 0 <= k < stmts.len() ==> stmts[k] == node_view(*statements@[k]),
            n == statements@.len(),
            0 <= i <= n,
            match render_stmts(stmts.skip(i as int)) {
                Option::Some(rest) => render_stmts(stmts) matches Option::Some(all_r) && all_r
                    == token_seq_view(v@) + rest,
                Option::None => render_stmts(stmts) is None,
            },
        ensures
            render_stmts(stmts) matches Option::Some(all_r) && all_r == token_seq_view(v@),
        decreases n - i,
    {
        if i >= n {
            proof {
                assert(stmts.skip(i as int) =~= Seq::<SpecNode>::empty());
                assert(render_stmts(stmts.skip(i as int)) == Option::Some(
                    Seq::<TokenV>::empty(),
                ));
                assert(token_seq_view(v@) + Seq::<TokenV>::empty() =~= token_seq_view(v@));
            }
            break ;
        }
        let ghost rest = stmts.skip(i as int);
        proof {
            assert(rest[0] == stmts[i as int]);
            assert(rest.drop_first() =~= stmts.skip(i as int + 1));
        }
        proof {
            crate::ast::lemma_view_block(*statements@[i as int]);
        }
        if matches!(&*statements[i], Node::BlockStatement { .. }) {
            return None;
        }
        match statements[i].render_node_tokens() {
            Some(st) => {
                let ghost sts = token_seq_view(st@);
                let ghost v_before = token_seq_view(v@);
                append_toks(&mut v, st);
                push_tok(&mut v, Token::SEMICOLON);
                proof {
                    match render_stmts(stmts.skip(i as int + 1)) {
                        Option::Some(r2) => {
                            assert(v_before + (sts + seq![TokenV::Semicolon] + r2) =~= ((v_before
                                + sts) + seq![TokenV::Semicolon]) + r2);
                        },
                        Option::None => {},
                    }
                }
            },
            None => {
                return None;
            },
        }
        i = i + 1;
    }
    Some(v)
}

impl Node {
    /// Token rendering of this node, where one is defined.
    #[verifier::rlimit(60)]
    pub fn render_node_tokens(&self) -> (r: Option<Vec<Token>>)
        ensures
            match render_tokens(self@) {
                Option::Some(ts) => r matches Option::Some(v) && token_seq_view(v@) == ts,
                Option::None => r is None,
            },
        decreases self, 1int,
    {
        match self {
            Node::IntegerLiteral { value, .. } => {
                if *value >= 0 {
                    let mut v: Vec<Token> = Vec::new();
                    proof {
                        assert(token_seq_view(v@) =~= Seq::<TokenV>::empty());
                        assert(Seq::<TokenV>::empty() + seq![TokenV::Int(
                            self->IntegerLiteral_value,
                        )] =~= seq![TokenV::Int(self->IntegerLiteral_value)]);
                    }
                    push_tok(&mut v, Token::INT(*value));
                    Some(v)
                } else if *value == i64::MIN {
                    None
                } else {
                    let mut v: Vec<Token> = Vec::new();
                    proof {
                        assert(token_seq_view(v@) =~= Seq::<TokenV>::empty());
                    }
                    push_tok(&mut v, Token::LPAREN);
                    push_tok(&mut v, Token::MINUS);
                    push_tok(&mut v, Token::INT(-*value));
                    push_tok(&mut v, Token::RPAREN);
                    proof {
                        assert(token_seq_view(v@) =~= seq![
                            TokenV::Lparen,
                            TokenV::Minus,
                            TokenV::Int((-(self->IntegerLiteral_value as int)) as i64),
                            TokenV::Rparen,
                        ]);
                    }
                    Some(v)
                }
            },
            Node::Boolean { value, .. } => {
                let mut v: Vec<Token> = Vec::new();
                proof {
                    assert(token_seq_view(v@) =~= Seq::<TokenV>::empty());
                }
                if *value {
                    push_tok(&mut v, Token::TRUE);
                    proof {
                        assert(token_seq_view(v@) =~= seq![TokenV::True]);
                    }
                } else {
                    push_tok(&mut v, Token::FALSE);
                    proof {
                        assert(token_seq_view(v@) =~= seq![TokenV::False]);
                    }
                }
                Some(v)
            },
            Node::PrefixExpression { operator, right, .. } => {
                let op: Token = if str_eq(operator.as_str(), "MINUS") {
                    Token::MINUS
                } else if str_eq(operator.as_str(), "BANG") {
                    Token::BANG
                } else {
                    return None;
                };
                match right {
                    Some(rb) => {
                        proof {
                            assert(opt_node_view(self->PrefixExpression_right)
                                matches Option::Some(b) && *b == node_view(**rb));
                            crate::ast::lemma_view_block(**rb);
                        }
                        if matches!(&**rb, Node::BlockStatement { .. }) {
                            return None;
                        }
                        match rb.render_node_tokens() {
                            Some(rt) => {
                                let ghost rts = token_seq_view(rt@);
                                let mut v: Vec<Token> = Vec::new();
                                proof {
                                    assert(token_seq_view(v@) =~= Seq::<TokenV>::empty());
                                }
                                push_tok(&mut v, Token::LPAREN);
                                push_tok(&mut v, op);
                                append_toks(&mut v, rt);
                                push_tok(&mut v, Token::RPAREN);
                                proof {
                                    assert(token_seq_view(v@) =~= seq![
                                        TokenV::Lparen,
                                        prefix_op_token(
                                            self->PrefixExpression_operator@,
                                        )->Some_0,
                                    ] + rts + seq![TokenV::Rparen]);
                                }
                                Some(v)
                            },
                            None => None,
                        }
                    },
                    None => {
                        proof {
                            assert(opt_node_view(Option::None) is None);
                        }
                        None
                    },
                }
            },
            Node::InfixExpression { operator, left, right, .. } => {
                let op: Token = match infix_op_token_exec(operator.as_str()) {
                    Some(op) => op,
                    None => {
                        return None;
                    },
                };
                match right {
                    Some(rb) => {
                        proof {
                            assert(opt_node_view(self->InfixExpression_right)
                                matches Option::Some(b) && *b == node_view(**rb));
                            crate::ast::lemma_view_block(**rb);
                            crate::ast::lemma_view_block(**left);
                        }
                        if matches!(&**left, Node::BlockStatement { .. }) || matches!(
                            &**rb,
                            Node::BlockStatement { .. },
                        ) {
                            return None;
                        }
                        let lr = left.render_node_tokens();
                        let rr = rb.render_node_tokens();
                        match (lr, rr) {
                            (Some(lt), Some(rt)) => {
                                let ghost lts = token_seq_view(lt@);
                                let ghost rts = token_seq_view(rt@);
                                let ghost opv = op@;
                                let mut v: Vec<Token> = Vec::new();
                                proof {
                                    assert(token_seq_view(v@) =~= Seq::<TokenV>::empty());
                                }
                                push_tok(&mut v, Token::LPAREN);
                                append_toks(&mut v, lt);
                                push_tok(&mut v, op);
                                append_toks(&mut v, rt);
                                push_tok(&mut v, Token::RPAREN);
                                proof {
                                    assert(token_seq_view(v@) =~= seq![TokenV::Lparen] + lts
                                        + seq![opv] + rts + seq![TokenV::Rparen]);
                                }
                                Some(v)
                            },
                            _ => None,
                        }
                    },
                    None => {
                        proof {
                            assert(opt_node_view(Option::None) is None);
                        }
                        None
                    },
                }
            },
            Node::IfExpression { condition, consequence, alternative, .. } => {
                proof {
                    crate::ast::lemma_view_block(**consequence);
                    crate::ast::lemma_view_block(**condition);
                }
                if matches!(&**condition, Node::BlockStatement { .. }) {
                    return None;
                }
                if !matches!(&**consequence, Node::BlockStatement { .. }) {
                    return None;
                }
                if let Some(ab) = alternative {
                    proof {
                        assert(opt_node_view(self->IfExpression_alternative)
                            matches Option::Some(b) && *b == node_view(**ab));
                        crate::ast::lemma_view_block(**ab);
                    }
                    if !matches!(&**ab, Node::BlockStatement { .. }) {
                        return None;
                    }
                }
                let cr = condition.render_node_tokens();
                let qr = consequence.render_node_tokens();
                match (cr, qr) {
                    (Some(ct), Some(qt)) => {
                        let ghost cts = token_seq_view(ct@);
                        let ghost qts = token_seq_view(qt@);
                        let mut v: Vec<Token> = Vec::new();
                        proof {
                            assert(token_seq_view(v@) =~= Seq::<TokenV>::empty());
                        }
                        push_tok(&mut v, Token::IF);
                        push_tok(&mut v, Token::LPAREN);
                        append_toks(&mut v, ct);
                        push_tok(&mut v, Token::RPAREN);
                        append_toks(&mut v, qt);
                        match alternative {
                            Some(ab) => {
                                proof {
                                    assert(opt_node_view(self->IfExpression_alternative)
                                        matches Option::Some(b) && *b == node_view(**ab));
                                }
                                match ab.render_node_tokens() {
                                    Some(at) => {
                                        let ghost ats = token_seq_view(at@);
                                        push_tok(&mut v, Token::ELSE);
                                        append_toks(&mut v, at);
                                        proof {
                                            assert(token_seq_view(v@) =~= seq![
                                                TokenV::If,
                                                TokenV::Lparen,
                                            ] + cts + seq![TokenV::Rparen] + qts + seq![
                                                TokenV::Else,
                                            ] + ats);
                                        }
                                        Some(v)
                                    },
                                    None => None,
                                }
                            },
                            None => {
                                proof {
                                    assert(opt_node_view(Option::None) is None);
                                    assert(token_seq_view(v@) =~= seq![
                                        TokenV::If,
                                        TokenV::Lparen,
                                    ] + cts + seq![TokenV::Rparen] + qts);
                                }
                                Some(v)
                            },
                        }
                    },
                    _ => None,
                }
            },
            Node::BlockStatement { statements, .. } => {
                match render_stmt_list(statements) {
                    Some(inner) => {
                        let ghost inners = token_seq_view(inner@);
                        let mut v: Vec<Token> = Vec::new();
                        proof {
                            assert(token_seq_view(v@) =~= Seq::<TokenV>::empty());
                        }
                        push_tok(&mut v, Token::LBRACE);
                        append_toks(&mut v, inner);
                        push_tok(&mut v, Token::RBRACE);
                        proof {
                            assert(token_seq_view(v@) =~= seq![TokenV::Lbrace] + inners + seq![
                                TokenV::Rbrace,
                            ]);
                        }
                        Some(v)
                    },
                    None => None,
                }
            },
            _ => None,
        }
    }

    /// Text rendering of this node, where one is defined: its tokens
    /// joined with single spaces.
    pub fn render(&self) -> (r: Option<String>)
        ensures
            match spec_render_text(self@) {
                Option::Some(text) => r matches Option::Some(s) && s@ == text,
                Option::None => r is None,
            },
    {
        match self.render_node_tokens() {
            Some(v) => Some(tokens_to_text(&v)),
            None => None,
        }
    }
}

} // verus!

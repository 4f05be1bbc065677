//! The syntax tree shared by the parser and the evaluator: a tagged,
//! recursive node type, plus the top-level `Program`, and the mathematical
//! model (`SpecNode`) that all contracts are phrased over.

use crate::token::Token;
use vstd::prelude::*;

verus! {

/// A node of the syntax tree. Every node owns its children exclusively.
/// Optional children model genuine absence: a bare `return`, an `if`
/// without an `else` branch.
#[derive(Debug, PartialEq)]
#[allow(inconsistent_fields)]
pub enum Node {
    LetStatement { token: Token, name: Box<Node>, value: Box<Node> },
    ReturnStatement { token: Token, value: Option<Box<Node>> },
    Identifier { token: Token, value: String },
    Expression { token: Token, value: Box<Node> },
    IfExpression {
        token: Token,
        condition: Box<Node>,
        consequence: Box<Node>,
        alternative: Option<Box<Node>>,
    },
    IntegerLiteral { token: Token, value: i64 },
    Boolean { token: Token, value: bool },
    PrefixExpression { token: Token, operator: String, right: Option<Box<Node>> },
    InfixExpression {
        token: Token,
        operator: String,
        left: Box<Node>,
        right: Option<Box<Node>>,
    },
    BlockStatement { token: Token, statements: Vec<Box<Node>> },
    FunctionLiteral { token: Token, parameters: Vec<Node>, body: Box<Node> },
    CallExpression { token: Token, fn_name: Box<Node>, parameters: Vec<Node> },
}

/// Mathematical image of a syntax tree node. Identifier names and operator
/// tags become character sequences, child vectors become sequences, and the
/// presentation-only token field is dropped: this is exactly the data the
/// language's grammar and semantics speak about.
#[allow(inconsistent_fields)]
pub enum SpecNode {
    LetStmt { name: Seq<char>, value: Box<SpecNode> },
    ReturnStmt { value: Option<Box<SpecNode>> },
    Ident { name: Seq<char> },
    Wrapped { value: Box<SpecNode> },
    If {
        condition: Box<SpecNode>,
        consequence: Box<SpecNode>,
        alternative: Option<Box<SpecNode>>,
    },
    IntLit { value: i64 },
    BoolLit { value: bool },
    Prefix { operator: Seq<char>, right: Option<Box<SpecNode>> },
    Infix { operator: Seq<char>, left: Box<SpecNode>, right: Option<Box<SpecNode>> },
    Block { statements: Seq<SpecNode> },
    Function { parameters: Seq<SpecNode>, body: Box<SpecNode> },
    Call { callee: Box<SpecNode>, arguments: Seq<SpecNode> },
}

/// Image of an optional child.
pub open spec fn opt_node_view(o: Option<Box<Node>>) -> Option<Box<SpecNode>>
    decreases o,
{
    match o {
        Option::None => Option::None,
        Option::Some(n) => Option::Some(Box::new(node_view(*n))),
    }
}

/// Image of a vector of child nodes.
pub open spec fn nodes_view(s: Seq<Node>) -> Seq<SpecNode>
    decreases s,
{
    if s.len() == 0 {
        Seq::empty()
    } else {
        seq![node_view(s[0])] + nodes_view(s.drop_first())
    }
}

/// Image of a vector of boxed child nodes.
pub open spec fn boxed_nodes_view(s: Seq<Box<Node>>) -> Seq<SpecNode>
    decreases s,
{
    if s.len() == 0 {
        Seq::empty()
    } else {
        seq![node_view(*s[0])] + boxed_nodes_view(s.drop_first())
    }
}

/// Image of a node: the recursive abstraction from `Node` to `SpecNode`.
pub open spec fn node_view(n: Node) -> SpecNode
    decreases n,
{
    match n {
        Node::LetStatement { token: _, name, value } => SpecNode::LetStmt {
            name: match *name {
                Node::Identifier { token: _, value: id } => id@,
                _ => Seq::empty(),
            },
            value: Box::new(node_view(*value)),
        },
        Node::ReturnStatement { token: _, value } => SpecNode::ReturnStmt {
            value: opt_node_view(value),
        },
        Node::Identifier { token: _, value } => SpecNode::Ident { name: value@ },
        Node::Expression { token: _, value } => SpecNode::Wrapped {
            value: Box::new(node_view(*value)),
        },
        Node::IfExpression { token: _, condition, consequence, alternative } => SpecNode::If {
            condition: Box::new(node_view(*condition)),
            consequence: Box::new(node_view(*consequence)),
            alternative: opt_node_view(alternative),
        },
        Node::IntegerLiteral { token: _, value } => SpecNode::IntLit { value },
        Node::Boolean { token: _, value } => SpecNode::BoolLit { value },
        Node::PrefixExpression { token: _, operator, right } => SpecNode::Prefix {
            operator: operator@,
            right: opt_node_view(right),
        },
        Node::InfixExpression { token: _, operator, left, right } => SpecNode::Infix {
            operator: operator@,
            left: Box::new(node_view(*left)),
            right: opt_node_view(right),
        },
        Node::BlockStatement { token: _, statements } => SpecNode::Block {
            statements: boxed_nodes_view(statements@),
        },
        Node::FunctionLiteral { token: _, parameters, body } => SpecNode::Function {
            parameters: nodes_view(parameters@),
            body: Box::new(node_view(*body)),
        },
        Node::CallExpression { token: _, fn_name, parameters } => SpecNode::Call {
            callee: Box::new(node_view(*fn_name)),
            arguments: nodes_view(parameters@),
        },
    }
}

impl View for Node {
    type V = SpecNode;

    open spec fn view(&self) -> SpecNode {
        node_view(*self)
    }
}

impl DeepView for Node {
    type V = SpecNode;

    open spec fn deep_view(&self) -> SpecNode {
        node_view(*self)
    }
}

/// A node's image is a block exactly when the node is a block statement.
pub proof fn lemma_view_block(n: Node)
    ensures
        node_view(n) is Block <==> n is BlockStatement,
{
}

/// `nodes_view` agrees with mapping `node_view` over the sequence.
pub proof fn lemma_nodes_view_len(s: Seq<Node>)
    ensures
        nodes_view(s).len() == s.len(),
        forall|i: int| 0 <= i < s.len() ==> nodes_view(s)[i] == node_view(s[i]),
    decreases s.len(),
{
    if s.len() > 0 {
        lemma_nodes_view_len(s.drop_first());
    }
}

/// `boxed_nodes_view` agrees with mapping `node_view` over the sequence.
pub proof fn lemma_boxed_nodes_view_len(s: Seq<Box<Node>>)
    ensures
        boxed_nodes_view(s).len() == s.len(),
        forall|i: int| 0 <= i < s.len() ==> boxed_nodes_view(s)[i] == node_view(*s[i]),
    decreases s.len(),
{
    if s.len() > 0 {
        lemma_boxed_nodes_view_len(s.drop_first());
    }
}

/// Appending one node extends the image by that node's image.
pub proof fn lemma_nodes_view_push(s: Seq<Node>, n: Node)
    ensures
        nodes_view(s.push(n)) == nodes_view(s) + seq![node_view(n)],
    decreases s.len(),
{
    if s.len() == 0 {
        reveal_with_fuel(nodes_view, 2);
        assert(s.push(n)[0] == n);
        assert(s.push(n).drop_first() =~= Seq::<Node>::empty());
        assert(nodes_view(s.push(n)) =~= nodes_view(s) + seq![node_view(n)]);
    } else {
        assert(s.push(n)[0] == s[0]);
        assert(s.push(n).drop_first() =~= s.drop_first().push(n));
        lemma_nodes_view_push(s.drop_first(), n);
        assert(nodes_view(s.push(n)) == seq![node_view(s[0])] + (nodes_view(s.drop_first())
            + seq![node_view(n)]));
        assert(seq![node_view(s[0])] + (nodes_view(s.drop_first()) + seq![node_view(n)]) =~= (
        seq![node_view(s[0])] + nodes_view(s.drop_first())) + seq![node_view(n)]);
    }
}

/// Appending one boxed node extends the image by that node's image.
pub proof fn lemma_boxed_nodes_view_push(s: Seq<Box<Node>>, n: Box<Node>)
    ensures
        boxed_nodes_view(s.push(n)) == boxed_nodes_view(s) + seq![node_view(*n)],
    decreases s.len(),
{
    if s.len() == 0 {
        reveal_with_fuel(boxed_nodes_view, 2);
        assert(s.push(n)[0] == n);
        assert(s.push(n).drop_first() =~= Seq::<Box<Node>>::empty());
        assert(boxed_nodes_view(s.push(n)) =~= boxed_nodes_view(s) + seq![node_view(*n)]);
    } else {
        assert(s.push(n)[0] == s[0]);
        assert(s.push(n).drop_first() =~= s.drop_first().push(n));
        lemma_boxed_nodes_view_push(s.drop_first(), n);
        assert(boxed_nodes_view(s.push(n)) == seq![node_view(*s[0])] + (boxed_nodes_view(
            s.drop_first(),
        ) + seq![node_view(*n)]));
        assert(seq![node_view(*s[0])] + (boxed_nodes_view(s.drop_first()) + seq![node_view(*n)])
            =~= (seq![node_view(*s[0])] + boxed_nodes_view(s.drop_first())) + seq![node_view(*n)]);
    }
}

impl Node {
    /// The token this node was built from.
    pub fn get_token_literal(&self) -> (t: &Token)
        ensures
            t == self.spec_token(),
    {
        match self {
            Node::LetStatement { token, .. } => token,
            Node::ReturnStatement { token, .. } => token,
            Node::Identifier { token, .. } => token,
            Node::Expression { token, .. } => token,
            Node::IfExpression { token, .. } => token,
            Node::IntegerLiteral { token, .. } => token,
            Node::PrefixExpression { token, .. } => token,
            Node::InfixExpression { token, .. } => token,
            Node::BlockStatement { token, .. } => token,
            Node::FunctionLiteral { token, .. } => token,
            Node::CallExpression { token, .. } => token,
            Node::Boolean { token, .. } => token,
        }
    }

    /// The token field of any node.
    pub open spec fn spec_token(&self) -> Token {
        match self {
            Node::LetStatement { token, .. } => *token,
            Node::ReturnStatement { token, .. } => *token,
            Node::Identifier { token, .. } => *token,
            Node::Expression { token, .. } => *token,
            Node::IfExpression { token, .. } => *token,
            Node::IntegerLiteral { token, .. } => *token,
            Node::PrefixExpression { token, .. } => *token,
            Node::InfixExpression { token, .. } => *token,
            Node::BlockStatement { token, .. } => *token,
            Node::FunctionLiteral { token, .. } => *token,
            Node::CallExpression { token, .. } => *token,
            Node::Boolean { token, .. } => *token,
        }
    }
}

/// An ordered sequence of top-level statements. An empty input yields an
/// empty, still valid, program.
#[derive(Debug, PartialEq)]
pub struct Program {
    pub statements: Vec<Node>,
}

impl View for Program {
    type V = Seq<SpecNode>;

    open spec fn view(&self) -> Seq<SpecNode> {
        nodes_view(self.statements@)
    }
}

impl Program {
    /// A fresh program with no statements.
    pub fn new() -> (p: Program)
        ensures
            p@ == Seq::<SpecNode>::empty(),
            p.statements@.len() == 0,
    {
        Program { statements: Vec::new() }
    }

    /// The token of the first statement; the program must not be empty.
    pub fn get_token_literal(&self) -> (t: &Token)
        requires
            self.statements@.len() > 0,
        ensures
            t == self.statements@[0].spec_token(),
    {
        self.statements[0].get_token_literal()
    }
}

impl Default for Program {
    fn default() -> (p: Program)
        ensures
            p@ == Seq::<SpecNode>::empty(),
    {
        Program::new()
    }
}

} // verus!

//! The tree builder: a postfix token sequence to an expression tree and
//! the list of variable bindings.
use vstd::prelude::*;
use crate::token::{proto_view, texts, texts_push, Proto, Token, TokenView};

verus! {

/// Why a token sequence is no postfix form of an expression.
#[derive(Debug, Clone, Copy, PartialEq, Eq, Structural)]
pub enum BuildError {
    /// An operator found too few operands before it.
    MissingOperand,
    /// A token that is no operand, operator or binding.
    UnexpectedToken,
    /// The sequence leaves no tree, or more than one.
    NotOneTree,
}

/// What a node is: a leaf that holds a value, or an operator with two
/// children.
#[derive(Debug, Clone, Copy, PartialEq, Eq, Structural)]
pub enum NodeKind {
    Num,
    Op,
}

/// A node of the expression tree. A `Num` node holds an operand in `value`
/// and nothing else; an `Op` node holds an operator in `op` and owns its
/// two children.
#[derive(Debug)]
pub struct Node {
    pub node_kind: NodeKind,
    pub value: Option<Token>,
    pub op: Option<Token>,
    pub left: Option<Box<Node>>,
    pub right: Option<Box<Node>>,
}

/// An expression tree and the raw `name=value` texts of its bindings.
pub struct AST(pub Node, pub Vec<String>);

/// The mathematical value of a [`Node`].
pub enum Tree {
    Value(TokenView),
    Operator(TokenView, Box<Tree>, Box<Tree>),
}

impl Node {
    /// The fields fit the kind, here and in every node below.
    pub open spec fn wf(&self) -> bool
        decreases self,
    {
        match self.node_kind {
            NodeKind::Num => {
                &&& self.value is Some
                &&& self.value->0@.is_operand()
                &&& self.op is None
                &&& self.left is None
                &&& self.right is None
            },
            NodeKind::Op => {
                &&& self.value is None
                &&& self.op is Some
                &&& self.op->0@.is_operator()
                &&& self.left is Some
                &&& self.right is Some
                &&& self.left->0.wf()
                &&& self.right->0.wf()
            },
        }
    }

    /// The tree that a well-formed node stands for.
    pub open spec fn tree(&self) -> Tree
        recommends
            self.wf(),
        decreases self,
    {
        if self.node_kind == NodeKind::Op && self.op is Some && self.left is Some
            && self.right is Some {
            Tree::Operator(
                self.op->0@,
                Box::new(self.left->0.tree()),
                Box::new(self.right->0.tree()),
            )
        } else if self.value is Some {
            Tree::Value(self.value->0@)
        } else {
            Tree::Value(TokenView::Eos)
        }
    }

    /// A leaf that holds `value`, which must be an operand.
    pub fn new_value_node(value: Token) -> (r: Result<Node, BuildError>)
        ensures
            match r {
                Ok(node) => value@.is_operand() && node.wf() && node.tree() == Tree::Value(
                    value@,
                ),
                Err(e) => !value@.is_operand() && e == BuildError::UnexpectedToken,
            },
    {
        match value {
            Token::Expression(_) | Token::Function(_, _, _) => Ok(
                Node { node_kind: NodeKind::Num, value: Some(value), op: None, left: None, right: None },
            ),
            _ => Err(BuildError::UnexpectedToken),
        }
    }

    /// An operator node over two trees; `op` must be a binary operator.
    pub fn new_op_node(op: Token, left: Node, right: Node) -> (r: Result<Node, BuildError>)
        requires
            left.wf(),
            right.wf(),
        ensures
            match r {
                Ok(node) => op@.is_operator() && node.wf() && node.tree() == Tree::Operator(
                    op@,
                    Box::new(left.tree()),
                    Box::new(right.tree()),
                ),
                Err(e) => !op@.is_operator() && e == BuildError::UnexpectedToken,
            },
    {
        match op {
            Token::Add | Token::Sub | Token::Div | Token::Times | Token::Superscript(_) => Ok(
                Node {
                    node_kind: NodeKind::Op,
                    value: None,
                    op: Some(op),
                    left: Some(Box::new(left)),
                    right: Some(Box::new(right)),
                },
            ),
            _ => Err(BuildError::UnexpectedToken),
        }
    }
}

/// The trees that a stack of nodes stands for.
pub open spec fn trees(stack: Seq<Node>) -> Seq<Tree> {
    stack.map_values(|n: Node| n.tree())
}

/// The tree and the bindings that the postfix sequence `p` builds, given
/// that its tokens before `k` have left the operands `stack` and the
/// bindings `vars`.
pub open spec fn build(p: Seq<TokenView>, k: int, stack: Seq<Tree>, vars: Seq<Seq<char>>) -> Result<
    (Tree, Seq<Seq<char>>),
    BuildError,
>
    decreases p.len() - k,
{
    if 0 <= k < p.len() && !(p[k] is Eos) {
        let t = p[k];
        match t {
            TokenView::Expression(_) | TokenView::Function(_, _, _) => build(
                p,
                k + 1,
                stack.push(Tree::Value(t)),
                vars,
            ),
            TokenView::Superscript(exponent) => {
                if stack.len() >= 1 {
                    let node = Tree::Operator(
                        t,
                        Box::new(stack.last()),
                        Box::new(Tree::Value(TokenView::Expression(exponent))),
                    );
                    build(p, k + 1, stack.drop_last().push(node), vars)
                } else {
                    Err(BuildError::MissingOperand)
                }
            },
            TokenView::Add | TokenView::Sub | TokenView::Times | TokenView::Div => {
                if stack.len() >= 2 {
                    let node = Tree::Operator(
                        t,
                        Box::new(stack[stack.len() - 2]),
                        Box::new(stack.last()),
                    );
                    build(p, k + 1, stack.drop_last().drop_last().push(node), vars)
                } else {
                    Err(BuildError::MissingOperand)
                }
            },
            TokenView::Var(binding) => build(p, k + 1, stack, vars.push(binding)),
            _ => Err(BuildError::UnexpectedToken),
        }
    } else if stack.len() == 1 {
        Ok((stack[0], vars))
    } else {
        Err(BuildError::NotOneTree)
    }
}

/// The tree and the bindings of the postfix sequence `p`: an operand
/// becomes a leaf; `+ - * /` take the two trees built last, the later one
/// as the right child; `^` takes the tree built last as its base and its
/// own content as the exponent; a binding joins the list. Exactly one tree
/// must be left at the end of input.
pub open spec fn built(p: Seq<TokenView>) -> Result<(Tree, Seq<Seq<char>>), BuildError> {
    build(p, 0, Seq::empty(), Seq::empty())
}

impl Node {
    /// Builds the tree and the bindings of a postfix token sequence.
    pub fn parse_rpn(expr: Proto) -> (r: Result<(Node, Vec<String>), BuildError>)
        ensures
            match r {
                Ok((node, vars)) => node.wf() && built(proto_view(expr@)) == Ok::<
                    (Tree, Seq<Seq<char>>),
                    BuildError,
                >((node.tree(), texts(vars@))),
                Err(e) => built(proto_view(expr@)) == Err::<(Tree, Seq<Seq<char>>), BuildError>(
                    e,
                ),
            },
    {
        let ghost p = proto_view(expr@);
        let n: usize = expr.len();
        let mut stack: Vec<Node> = Vec::new();
        let mut vars: Vec<String> = Vec::new();
        let mut k: usize = 0;
        let mut going: bool = true;
        assert(trees(stack@) =~= Seq::empty());
        assert(texts(vars@) =~= Seq::empty());
        while going
            invariant
                p == proto_view(expr@),
                n == expr@.len(),
                k <= n,
                forall|i: int| 0 <= i < stack@.len() ==> (#[trigger] stack@[i]).wf(),
                built(p) == build(p, k as int, trees(stack@), texts(vars@)),
                !going ==> k >= n || p[k as int] is Eos,
            decreases n - k + if going { 1int } else { 0int },
        {
            if k >= n {
                going = false;
            } else {
                assert(p[k as int] == expr@[k as int]@);
                let ghost before = trees(stack@);
                let token: Token = expr[k].duplicate();
                match token {
                    Token::Eos => {
                        going = false;
                    },
                    Token::Expression(_) | Token::Function(_, _, _) => {
                        let node = Node::new_value_node(token).unwrap();
                        assert(trees(stack@.push(node)) =~= before.push(node.tree()));
                        stack.push(node);
                        k += 1;
                    },
                    Token::Superscript(exponent) => {
                        let base = match stack.pop() {
                            Some(node) => node,
                            None => {
                                return Err(BuildError::MissingOperand);
                            },
                        };
                        assert(trees(stack@) =~= before.drop_last());
                        let leaf = Node::new_value_node(
                            Token::Expression(exponent.clone()),
                        ).unwrap();
                        let node = Node::new_op_node(
                            Token::Superscript(exponent),
                            base,
                            leaf,
                        ).unwrap();
                        assert(trees(stack@.push(node)) =~= before.drop_last().push(node.tree()));
                        stack.push(node);
                        k += 1;
                    },
                    Token::Add | Token::Sub | Token::Times | Token::Div => {
                        if stack.len() < 2 {
                            return Err(BuildError::MissingOperand);
                        }
                        let right = stack.pop().unwrap();
                        let left = stack.pop().unwrap();
                        assert(trees(stack@) =~= before.drop_last().drop_last());
                        let node = Node::new_op_node(token, left, right).unwrap();
                        assert(trees(stack@.push(node)) =~= before.drop_last().drop_last().push(
                            node.tree(),
                        ));
                        stack.push(node);
                        k += 1;
                    },
                    Token::Var(binding) => {
                        proof {
                            texts_push(vars@, binding);
                        }
                        vars.push(binding);
                        k += 1;
                    },
                    _ => {
                        return Err(BuildError::UnexpectedToken);
                    },
                }
            }
        }
        if stack.len() != 1 {
            return Err(BuildError::NotOneTree);
        }
        let node = stack.pop().unwrap();
        Ok((node, vars))
    }
}

impl AST {
    /// The expression tree that this value holds.
    pub open spec fn tree(&self) -> Tree {
        self.0.tree()
    }

    /// The binding texts that this value holds.
    pub open spec fn bindings(&self) -> Seq<Seq<char>> {
        texts(self.1@)
    }

    /// The tree and the bindings of a postfix token sequence, or the
    /// reason why it has none.
    pub fn try_new(proto: Proto) -> (r: Result<AST, BuildError>)
        ensures
            match r {
                Ok(ast) => ast.0.wf() && built(proto_view(proto@)) == Ok::<
                    (Tree, Seq<Seq<char>>),
                    BuildError,
                >((ast.tree(), ast.bindings())),
                Err(e) => built(proto_view(proto@)) == Err::<(Tree, Seq<Seq<char>>), BuildError>(
                    e,
                ),
            },
    {
        match Node::parse_rpn(proto) {
            Ok((node, vars)) => Ok(AST(node, vars)),
            Err(e) => Err(e),
        }
    }

    /// The tree and the bindings of a postfix token sequence.
    pub fn new(proto: Proto) -> (ast: AST)
        requires
            built(proto_view(proto@)) is Ok,
        ensures
            ast.0.wf(),
            built(proto_view(proto@)) == Ok::<(Tree, Seq<Seq<char>>), BuildError>(
                (ast.tree(), ast.bindings()),
            ),
    {
        AST::try_new(proto).unwrap()
    }
}

/// One of `+ - * /`.
pub open spec fn is_arithmetic(t: TokenView) -> bool {
    t is Add || t is Sub || t is Times || t is Div
}

/// Postfix order fixes the grouping: `x y z o2 o1` builds `x o1 (y o2 z)`
/// and `x y o1 z o2` builds `(x o1 y) o2 z`. With the parser's order of
/// operators this makes an operator of higher precedence bind first, and
/// operators of equal precedence group from the left.
pub proof fn postfix_order_fixes_the_grouping(
    x: TokenView,
    o1: TokenView,
    y: TokenView,
    o2: TokenView,
    z: TokenView,
)
    requires
        x.is_operand(),
        y.is_operand(),
        z.is_operand(),
        is_arithmetic(o1),
        is_arithmetic(o2),
    ensures
        built(seq![x, y, z, o2, o1, TokenView::Eos]) == Ok::<(Tree, Seq<Seq<char>>), BuildError>(
            (
                Tree::Operator(
                    o1,
                    Box::new(Tree::Value(x)),
                    Box::new(Tree::Operator(o2, Box::new(Tree::Value(y)), Box::new(Tree::Value(z)))),
                ),
                Seq::empty(),
            ),
        ),
        built(seq![x, y, o1, z, o2, TokenView::Eos]) == Ok::<(Tree, Seq<Seq<char>>), BuildError>(
            (
                Tree::Operator(
                    o2,
                    Box::new(Tree::Operator(o1, Box::new(Tree::Value(x)), Box::new(Tree::Value(y)))),
                    Box::new(Tree::Value(z)),
                ),
                Seq::empty(),
            ),
        ),
{
    let none = Seq::<Seq<char>>::empty();
    let e = Seq::<Tree>::empty();
    let (tx, ty, tz) = (Tree::Value(x), Tree::Value(y), Tree::Value(z));
    assert(e.push(tx) =~= seq![tx]);
    assert(seq![tx].push(ty) =~= seq![tx, ty]);
    assert(seq![tx, ty].push(tz) =~= seq![tx, ty, tz]);
    {
        let p = seq![x, y, z, o2, o1, TokenView::Eos];
        let inner = Tree::Operator(o2, Box::new(ty), Box::new(tz));
        let outer = Tree::Operator(o1, Box::new(tx), Box::new(inner));
        assert(build(p, 0, e, none) == build(p, 1, seq![tx], none));
        assert(build(p, 1, seq![tx], none) == build(p, 2, seq![tx, ty], none));
        assert(build(p, 2, seq![tx, ty], none) == build(p, 3, seq![tx, ty, tz], none));
        assert(seq![tx, ty, tz].drop_last().drop_last().push(inner) =~= seq![tx, inner]);
        assert(build(p, 3, seq![tx, ty, tz], none) == build(p, 4, seq![tx, inner], none));
        assert(seq![tx, inner].drop_last().drop_last().push(outer) =~= seq![outer]);
        assert(build(p, 4, seq![tx, inner], none) == build(p, 5, seq![outer], none));
        assert(build(p, 5, seq![outer], none) == Ok::<(Tree, Seq<Seq<char>>), BuildError>(
            (outer, none),
        ));
    }
    {
        let p = seq![x, y, o1, z, o2, TokenView::Eos];
        let inner = Tree::Operator(o1, Box::new(tx), Box::new(ty));
        let outer = Tree::Operator(o2, Box::new(inner), Box::new(tz));
        assert(build(p, 0, e, none) == build(p, 1, seq![tx], none));
        assert(build(p, 1, seq![tx], none) == build(p, 2, seq![tx, ty], none));
        assert(seq![tx, ty].drop_last().drop_last().push(inner) =~= seq![inner]);
        assert(build(p, 2, seq![tx, ty], none) == build(p, 3, seq![inner], none));
        assert(seq![inner].push(tz) =~= seq![inner, tz]);
        assert(build(p, 3, seq![inner], none) == build(p, 4, seq![inner, tz], none));
        assert(seq![inner, tz].drop_last().drop_last().push(outer) =~= seq![outer]);
        assert(build(p, 4, seq![inner, tz], none) == build(p, 5, seq![outer], none));
        assert(build(p, 5, seq![outer], none) == Ok::<(Tree, Seq<Seq<char>>), BuildError>(
            (outer, none),
        ));
    }
}

} // verus!

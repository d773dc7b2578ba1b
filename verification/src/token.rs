//! The tokens that the stages hand to each other.
use vstd::prelude::*;

verus! {

/// One lexical unit of the accepted LaTeX subset.
#[derive(PartialEq, Debug, Clone)]
pub enum Token {
    /// A run of letters, digits and dots, or the content of a brace group.
    Expression(String),
    /// A function's name, its optional arguments and its required
    /// arguments: `\sqrt[3]{2}` is `Function("sqrt", ["3"], ["2"])`.
    Function(String, Vec<String>, Vec<String>),
    /// `=`
    Equal,
    /// `+`
    Add,
    /// `/`
    Div,
    /// `-`
    Sub,
    /// `*`
    Times,
    /// `(`
    ParL,
    /// `)`
    ParR,
    /// `[`
    SquareL,
    /// `]`
    SquareR,
    /// A `}` that closes nothing: it only divides blocks.
    BraceR,
    /// `^` with its content: `^2` and `^{2}` are both `Superscript("2")`.
    Superscript(String),
    /// `_` with its content: `_{22}` is `Subscript("22")`.
    Subscript(String),
    /// `.`
    Dot,
    /// `,`
    Comma,
    /// A variable binding, the raw `name=value` text of `\var{..}`.
    Var(String),
    /// A line break or the end of the input.
    Eos,
}

/// A token sequence, in infix or postfix order.
pub type Proto = Vec<Token>;

/// The mathematical value of a [`Token`]: texts are character sequences.
pub enum TokenView {
    Expression(Seq<char>),
    Function(Seq<char>, Seq<Seq<char>>, Seq<Seq<char>>),
    Equal,
    Add,
    Div,
    Sub,
    Times,
    ParL,
    ParR,
    SquareL,
    SquareR,
    BraceR,
    Superscript(Seq<char>),
    Subscript(Seq<char>),
    Dot,
    Comma,
    Var(Seq<char>),
    Eos,
}

/// The character sequences of a list of strings.
pub open spec fn texts(v: Seq<String>) -> Seq<Seq<char>> {
    v.map_values(|s: String| s@)
}

/// The values of a token sequence.
pub open spec fn proto_view(p: Seq<Token>) -> Seq<TokenView> {
    p.map_values(|t: Token| t@)
}

impl View for Token {
    type V = TokenView;

    open spec fn view(&self) -> TokenView {
        match *self {
            Token::Expression(s) => TokenView::Expression(s@),
            Token::Function(name, optional, required) => TokenView::Function(
                name@,
                texts(optional@),
                texts(required@),
            ),
            Token::Equal => TokenView::Equal,
            Token::Add => TokenView::Add,
            Token::Div => TokenView::Div,
            Token::Sub => TokenView::Sub,
            Token::Times => TokenView::Times,
            Token::ParL => TokenView::ParL,
            Token::ParR => TokenView::ParR,
            Token::SquareL => TokenView::SquareL,
            Token::SquareR => TokenView::SquareR,
            Token::BraceR => TokenView::BraceR,
            Token::Superscript(s) => TokenView::Superscript(s@),
            Token::Subscript(s) => TokenView::Subscript(s@),
            Token::Dot => TokenView::Dot,
            Token::Comma => TokenView::Comma,
            Token::Var(s) => TokenView::Var(s@),
            Token::Eos => TokenView::Eos,
        }
    }
}

impl TokenView {
    /// An operand: a token that becomes a leaf of the expression tree.
    pub open spec fn is_operand(self) -> bool {
        self is Expression || self is Function
    }

    /// A binary operator of the expression language.
    pub open spec fn is_operator(self) -> bool {
        self is Add || self is Sub || self is Times || self is Div || self is Superscript
    }

    /// The precedence of a token on the operator stack: 1 for `+` and `-`,
    /// 2 for `*` and `/`, 3 for `^`, 0 for everything else.
    pub open spec fn weight(self) -> nat {
        match self {
            TokenView::Add | TokenView::Sub => 1,
            TokenView::Times | TokenView::Div => 2,
            TokenView::Superscript(_) => 3,
            _ => 0,
        }
    }
}

/// Appending a string appends its character sequence.
pub proof fn texts_push(v: Seq<String>, s: String)
    ensures
        texts(v.push(s)) == texts(v).push(s@),
{
    assert(texts(v.push(s)) =~= texts(v).push(s@));
}

/// Appending a token appends its value.
pub proof fn proto_view_push(p: Seq<Token>, t: Token)
    ensures
        proto_view(p.push(t)) == proto_view(p).push(t@),
{
    assert(proto_view(p.push(t)) =~= proto_view(p).push(t@));
}

/// The values of two token sequences, one behind the other.
pub proof fn proto_view_add(a: Seq<Token>, b: Seq<Token>)
    ensures
        proto_view(a + b) == proto_view(a) + proto_view(b),
{
    assert(proto_view(a + b) =~= proto_view(a) + proto_view(b));
}

/// A copy of a list of strings.
pub fn clone_texts(v: &Vec<String>) -> (r: Vec<String>)
    ensures
        texts(r@) == texts(v@),
{
    let mut r: Vec<String> = Vec::new();
    let mut i: usize = 0;
    while i < v.len()
        invariant
            i <= v@.len(),
            r@.len() == i,
            forall|k: int| 0 <= k < i ==> r@[k]@ == v@[k]@,
        decreases v@.len() - i,
    {
        r.push(v[i].clone());
        i += 1;
    }
    assert(texts(r@) =~= texts(v@));
    r
}

impl Token {
    /// A copy of the token, with the same value.
    pub fn duplicate(&self) -> (r: Token)
        ensures
            r@ == self@,
    {
        match self {
            Token::Expression(s) => Token::Expression(s.clone()),
            Token::Function(name, optional, required) => Token::Function(
                name.clone(),
                clone_texts(optional),
                clone_texts(required),
            ),
            Token::Equal => Token::Equal,
            Token::Add => Token::Add,
            Token::Div => Token::Div,
            Token::Sub => Token::Sub,
            Token::Times => Token::Times,
            Token::ParL => Token::ParL,
            Token::ParR => Token::ParR,
            Token::SquareL => Token::SquareL,
            Token::SquareR => Token::SquareR,
            Token::BraceR => Token::BraceR,
            Token::Superscript(s) => Token::Superscript(s.clone()),
            Token::Subscript(s) => Token::Subscript(s.clone()),
            Token::Dot => Token::Dot,
            Token::Comma => Token::Comma,
            Token::Var(s) => Token::Var(s.clone()),
            Token::Eos => Token::Eos,
        }
    }
}

} // verus!

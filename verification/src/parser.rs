//! The precedence parser: an infix token sequence to a postfix one.
use vstd::prelude::*;
use crate::lex::{lexed, Lex, LexError};
use crate::token::{proto_view, proto_view_add, proto_view_push, Proto, Token, TokenView};

verus! {

/// Why an infix token sequence has no postfix form.
#[derive(Debug, Clone, Copy, PartialEq, Eq, Structural)]
pub enum ParseError {
    /// A token that is no operand, operator, parenthesis or binding.
    UnexpectedToken,
    /// A `)` without a `(` before it, or a `(` that is never closed.
    UnbalancedGrouping,
}

/// The stack and the output after the operators above the innermost `(`
/// have gone to the output and that `(` has been dropped; `None` if the
/// stack holds no `(`.
pub open spec fn close_group(stack: Seq<TokenView>, out: Seq<TokenView>) -> Option<
    (Seq<TokenView>, Seq<TokenView>),
>
    decreases stack.len(),
{
    if stack.len() == 0 {
        None
    } else if stack.last() is ParL {
        Some((stack.drop_last(), out))
    } else {
        close_group(stack.drop_last(), out.push(stack.last()))
    }
}

/// The stack and the output after every operator at the top of the stack
/// whose precedence is at least `w` has gone to the output.
pub open spec fn pop_higher(stack: Seq<TokenView>, out: Seq<TokenView>, w: nat) -> (
    Seq<TokenView>,
    Seq<TokenView>,
)
    decreases stack.len(),
{
    if stack.len() > 0 && stack.last().weight() >= w {
        pop_higher(stack.drop_last(), out.push(stack.last()), w)
    } else {
        (stack, out)
    }
}

/// The output with the rest of the stack behind it, top first; `None` if
/// a `(` is still open.
pub open spec fn flush(stack: Seq<TokenView>, out: Seq<TokenView>) -> Option<Seq<TokenView>>
    decreases stack.len(),
{
    if stack.len() == 0 {
        Some(out)
    } else if stack.last() is ParL {
        None
    } else {
        flush(stack.drop_last(), out.push(stack.last()))
    }
}

/// The postfix form of `p`, given that its tokens before `k` have left the
/// operators `stack`, the output `out` and the bindings `vars`.
pub open spec fn shunt(
    p: Seq<TokenView>,
    k: int,
    stack: Seq<TokenView>,
    out: Seq<TokenView>,
    vars: Seq<TokenView>,
) -> Result<Seq<TokenView>, ParseError>
    decreases p.len() - k,
{
    if 0 <= k < p.len() && !(p[k] is Eos) {
        let t = p[k];
        if t.is_operand() {
            shunt(p, k + 1, stack, out.push(t), vars)
        } else if t is ParL {
            shunt(p, k + 1, stack.push(t), out, vars)
        } else if t is ParR {
            match close_group(stack, out) {
                Some((rest, emitted)) => shunt(p, k + 1, rest, emitted, vars),
                None => Err(ParseError::UnbalancedGrouping),
            }
        } else if t.is_operator() {
            let (rest, emitted) = pop_higher(stack, out, t.weight());
            shunt(p, k + 1, rest.push(t), emitted, vars)
        } else if t is Var {
            shunt(p, k + 1, stack, out, vars.push(t))
        } else {
            Err(ParseError::UnexpectedToken)
        }
    } else {
        match flush(stack, out) {
            Some(emitted) => Ok(emitted + vars + seq![TokenView::Eos]),
            None => Err(ParseError::UnbalancedGrouping),
        }
    }
}

/// The postfix form of the infix sequence `p`: operands in their order,
/// each operator behind its operands, an operator leaving the stack before
/// one of the same or a lower precedence enters, then the bindings and the
/// end of input. Tokens behind the first end of input are not read.
pub open spec fn postfix(p: Seq<TokenView>) -> Result<Seq<TokenView>, ParseError> {
    shunt(p, 0, Seq::empty(), Seq::empty(), Seq::empty())
}

/// The values of a token sequence without its last token.
pub proof fn proto_view_drop_last(p: Seq<Token>)
    requires
        p.len() > 0,
    ensures
        proto_view(p.drop_last()) == proto_view(p).drop_last(),
        proto_view(p).last() == p.last()@,
{
    assert(proto_view(p.drop_last()) =~= proto_view(p).drop_last());
}

/// An infix token sequence, ready to be turned into postfix order.
pub struct Parser {
    proto: Proto,
}

impl Parser {
    /// The values of the tokens held.
    pub closed spec fn tokens(&self) -> Seq<TokenView> {
        proto_view(self.proto@)
    }

    /// A parser over the tokens of the text under `lex`.
    pub fn from_lex(lex: &mut Lex) -> (parser: Parser)
        requires
            old(lex).wf(),
            lexed(old(lex).text(), old(lex).position()) is Ok,
        ensures
            final(lex).wf(),
            final(lex).text() == old(lex).text(),
            lexed(old(lex).text(), old(lex).position()) == Ok::<Seq<TokenView>, LexError>(
                parser.tokens(),
            ),
    {
        Parser { proto: lex.parse() }
    }

    /// A parser over the tokens of the text under `lex`, or the reason
    /// why the text cannot be lexed.
    pub fn try_from_lex(lex: &mut Lex) -> (r: Result<Parser, LexError>)
        requires
            old(lex).wf(),
        ensures
            final(lex).wf(),
            final(lex).text() == old(lex).text(),
            match r {
                Ok(parser) => lexed(old(lex).text(), old(lex).position()) == Ok::<
                    Seq<TokenView>,
                    LexError,
                >(parser.tokens()),
                Err(e) => lexed(old(lex).text(), old(lex).position()) == Err::<
                    Seq<TokenView>,
                    LexError,
                >(e),
            },
    {
        match lex.try_parse() {
            Ok(proto) => Ok(Parser { proto }),
            Err(e) => Err(e),
        }
    }

    /// A parser over `proto`.
    pub fn from_proto(proto: Proto) -> (parser: Parser)
        ensures
            parser.tokens() == proto_view(proto@),
    {
        Parser { proto }
    }

    /// A parser over `proto`.
    pub fn new(proto: Proto) -> (parser: Parser)
        ensures
            parser.tokens() == proto_view(proto@),
    {
        Parser { proto }
    }

    /// The precedence of a token on the operator stack.
    pub fn weight(token: &Token) -> (w: u8)
        ensures
            w == token@.weight(),
    {
        match token {
            Token::Add | Token::Sub => 1,
            Token::Times | Token::Div => 2,
            Token::Superscript(_) => 3,
            _ => 0,
        }
    }

    /// The postfix form of the tokens held, or the reason why there is
    /// none.
    pub fn try_to_postfix_proto(self) -> (r: Result<Proto, ParseError>)
        ensures
            match r {
                Ok(q) => postfix(self.tokens()) == Ok::<Seq<TokenView>, ParseError>(
                    proto_view(q@),
                ),
                Err(e) => postfix(self.tokens()) == Err::<Seq<TokenView>, ParseError>(e),
            },
    {
        let ghost p = proto_view(self.proto@);
        let n: usize = self.proto.len();
        let mut out: Vec<Token> = Vec::new();
        let mut stack: Vec<Token> = Vec::new();
        let mut vars: Vec<Token> = Vec::new();
        let mut k: usize = 0;
        let mut going: bool = true;
        assert(proto_view(out@) =~= Seq::empty());
        while going
            invariant
                p == proto_view(self.proto@),
                n == self.proto@.len(),
                k <= n,
                postfix(p) == shunt(
                    p,
                    k as int,
                    proto_view(stack@),
                    proto_view(out@),
                    proto_view(vars@),
                ),
                !going ==> k >= n || p[k as int] is Eos,
            decreases n - k + if going { 1int } else { 0int },
        {
            if k >= n {
                going = false;
            } else {
                assert(p[k as int] == self.proto@[k as int]@);
                let token: Token = self.proto[k].duplicate();
                match token {
                    Token::Eos => {
                        going = false;
                    },
                    Token::Expression(_) | Token::Function(_, _, _) => {
                        proof {
                            proto_view_push(out@, token);
                        }
                        out.push(token);
                        k += 1;
                    },
                    Token::ParL => {
                        proof {
                            proto_view_push(stack@, token);
                        }
                        stack.push(token);
                        k += 1;
                    },
                    Token::ParR => {
                        if !close_group_on(&mut stack, &mut out) {
                            return Err(ParseError::UnbalancedGrouping);
                        }
                        k += 1;
                    },
                    Token::Add | Token::Sub | Token::Times | Token::Div | Token::Superscript(
                        _,
                    ) => {
                        pop_higher_on(&mut stack, &mut out, Parser::weight(&token));
                        proof {
                            proto_view_push(stack@, token);
                        }
                        stack.push(token);
                        k += 1;
                    },
                    Token::Var(_) => {
                        proof {
                            proto_view_push(vars@, token);
                        }
                        vars.push(token);
                        k += 1;
                    },
                    _ => {
                        return Err(ParseError::UnexpectedToken);
                    },
                }
            }
        }
        if !flush_on(&mut stack, &mut out) {
            return Err(ParseError::UnbalancedGrouping);
        }
        proof {
            proto_view_add(out@, vars@);
            proto_view_push(out@ + vars@, Token::Eos);
            assert((proto_view(out@) + proto_view(vars@)).push(TokenView::Eos) =~= proto_view(out@)
                + proto_view(vars@) + seq![TokenView::Eos]);
        }
        out.append(&mut vars);
        out.push(Token::Eos);
        Ok(out)
    }

    /// The postfix form of the tokens held.
    pub fn to_postfix_proto(self) -> (q: Proto)
        requires
            postfix(self.tokens()) is Ok,
        ensures
            postfix(self.tokens()) == Ok::<Seq<TokenView>, ParseError>(proto_view(q@)),
    {
        self.try_to_postfix_proto().unwrap()
    }
}

fn close_group_on(stack: &mut Vec<Token>, out: &mut Vec<Token>) -> (found: bool)
    ensures
        match close_group(proto_view(old(stack)@), proto_view(old(out)@)) {
            Some((rest, emitted)) => found && proto_view(final(stack)@) == rest && proto_view(
                final(out)@,
            ) == emitted,
            None => !found,
        },
{
    loop
        invariant
            close_group(proto_view(old(stack)@), proto_view(old(out)@)) == close_group(
                proto_view(stack@),
                proto_view(out@),
            ),
        decreases stack@.len(),
    {
        proof {
            if stack@.len() > 0 {
                proto_view_drop_last(stack@);
            }
        }
        match stack.pop() {
            None => {
                return false;
            },
            Some(token) => {
                if let Token::ParL = token {
                    return true;
                }
                proof {
                    proto_view_push(out@, token);
                }
                out.push(token);
            },
        }
    }
}

fn pop_higher_on(stack: &mut Vec<Token>, out: &mut Vec<Token>, w: u8)
    ensures
        pop_higher(proto_view(old(stack)@), proto_view(old(out)@), w as nat) == (
            proto_view(final(stack)@),
            proto_view(final(out)@),
        ),
{
    while stack.len() > 0 && Parser::weight(&stack[stack.len() - 1]) >= w
        invariant
            pop_higher(proto_view(old(stack)@), proto_view(old(out)@), w as nat) == pop_higher(
                proto_view(stack@),
                proto_view(out@),
                w as nat,
            ),
        decreases stack@.len(),
    {
        proof {
            proto_view_drop_last(stack@);
        }
        let token: Token = stack.pop().unwrap();
        proof {
            proto_view_push(out@, token);
        }
        out.push(token);
    }
    proof {
        if stack@.len() > 0 {
            proto_view_drop_last(stack@);
        }
    }
}

fn flush_on(stack: &mut Vec<Token>, out: &mut Vec<Token>) -> (done: bool)
    ensures
        match flush(proto_view(old(stack)@), proto_view(old(out)@)) {
            Some(emitted) => done && proto_view(final(out)@) == emitted,
            None => !done,
        },
{
    loop
        invariant
            flush(proto_view(old(stack)@), proto_view(old(out)@)) == flush(
                proto_view(stack@),
                proto_view(out@),
            ),
        decreases stack@.len(),
    {
        proof {
            if stack@.len() > 0 {
                proto_view_drop_last(stack@);
            }
        }
        match stack.pop() {
            None => {
                return true;
            },
            Some(token) => {
                if let Token::ParL = token {
                    return false;
                }
                proof {
                    proto_view_push(out@, token);
                }
                out.push(token);
            },
        }
    }
}

/// Precedence decides the order: in `x o1 y o2 z`, the second operator
/// is applied first only where it binds more tightly than the first;
/// operators of equal precedence are applied from left to right.
pub proof fn precedence_decides_the_order(
    x: TokenView,
    o1: TokenView,
    y: TokenView,
    o2: TokenView,
    z: TokenView,
)
    requires
        x.is_operand(),
        y.is_operand(),
        z.is_operand(),
        o1.is_operator(),
        o2.is_operator(),
    ensures
        postfix(seq![x, o1, y, o2, z, TokenView::Eos]) == Ok::<Seq<TokenView>, ParseError>(
            if o2.weight() > o1.weight() {
                seq![x, y, z, o2, o1, TokenView::Eos]
            } else {
                seq![x, y, o1, z, o2, TokenView::Eos]
            },
        ),
{
    let p = seq![x, o1, y, o2, z, TokenView::Eos];
    let e = Seq::<TokenView>::empty();
    let end = seq![TokenView::Eos];
    assert(shunt(p, 0, e, e, e) == shunt(p, 1, e, seq![x], e)) by {
        assert(e.push(x) =~= seq![x]);
    }
    assert(shunt(p, 1, e, seq![x], e) == shunt(p, 2, seq![o1], seq![x], e)) by {
        assert(pop_higher(e, seq![x], o1.weight()) == (e, seq![x]));
        assert(e.push(o1) =~= seq![o1]);
    }
    assert(shunt(p, 2, seq![o1], seq![x], e) == shunt(p, 3, seq![o1], seq![x, y], e)) by {
        assert(seq![x].push(y) =~= seq![x, y]);
    }
    assert(seq![o1].drop_last() =~= e);
    assert(seq![o2].drop_last() =~= e);
    if o2.weight() > o1.weight() {
        assert(shunt(p, 3, seq![o1], seq![x, y], e) == shunt(p, 4, seq![o1, o2], seq![x, y], e))
            by {
            assert(pop_higher(seq![o1], seq![x, y], o2.weight()) == (seq![o1], seq![x, y]));
            assert(seq![o1].push(o2) =~= seq![o1, o2]);
        }
        assert(shunt(p, 4, seq![o1, o2], seq![x, y], e) == shunt(
            p,
            5,
            seq![o1, o2],
            seq![x, y, z],
            e,
        )) by {
            assert(seq![x, y].push(z) =~= seq![x, y, z]);
        }
        assert(flush(seq![o1, o2], seq![x, y, z]) == Some(seq![x, y, z, o2, o1])) by {
            assert(seq![o1, o2].drop_last() =~= seq![o1]);
            assert(seq![x, y, z].push(o2) =~= seq![x, y, z, o2]);
            assert(seq![x, y, z, o2].push(o1) =~= seq![x, y, z, o2, o1]);
            assert(flush(e, seq![x, y, z, o2, o1]) == Some(seq![x, y, z, o2, o1]));
            assert(flush(seq![o1], seq![x, y, z, o2]) == Some(seq![x, y, z, o2, o1]));
        }
        assert(seq![x, y, z, o2, o1] + e + end =~= seq![x, y, z, o2, o1, TokenView::Eos]);
    } else {
        assert(shunt(p, 3, seq![o1], seq![x, y], e) == shunt(p, 4, seq![o2], seq![x, y, o1], e))
            by {
            assert(seq![x, y].push(o1) =~= seq![x, y, o1]);
            assert(pop_higher(e, seq![x, y, o1], o2.weight()) == (e, seq![x, y, o1]));
            assert(pop_higher(seq![o1], seq![x, y], o2.weight()) == (e, seq![x, y, o1]));
            assert(e.push(o2) =~= seq![o2]);
        }
        assert(shunt(p, 4, seq![o2], seq![x, y, o1], e) == shunt(
            p,
            5,
            seq![o2],
            seq![x, y, o1, z],
            e,
        )) by {
            assert(seq![x, y, o1].push(z) =~= seq![x, y, o1, z]);
        }
        assert(flush(seq![o2], seq![x, y, o1, z]) == Some(seq![x, y, o1, z, o2])) by {
            assert(seq![x, y, o1, z].push(o2) =~= seq![x, y, o1, z, o2]);
            assert(flush(e, seq![x, y, o1, z, o2]) == Some(seq![x, y, o1, z, o2]));
        }
        assert(seq![x, y, o1, z, o2] + e + end =~= seq![x, y, o1, z, o2, TokenView::Eos]);
    }
}

/// Every token is an operator or a `(`: what the operator stack holds.
pub open spec fn is_operator_stack(stack: Seq<TokenView>) -> bool {
    forall|i: int| 0 <= i < stack.len() ==> (#[trigger] stack[i]).is_operator() || stack[i] is ParL
}

/// Every token is an operand or an operator: what the output holds.
pub open spec fn is_postfix_body(out: Seq<TokenView>) -> bool {
    forall|i: int| 0 <= i < out.len() ==> (#[trigger] out[i]).is_operand() || out[i].is_operator()
}

/// Every token is a binding.
pub open spec fn are_bindings(vars: Seq<TokenView>) -> bool {
    forall|i: int| 0 <= i < vars.len() ==> #[trigger] vars[i] is Var
}

/// The shape of a postfix sequence: operands and operators, then the
/// bindings, then the one end of input. No parenthesis is left.
pub open spec fn is_postfix_form(q: Seq<TokenView>) -> bool {
    exists|body: Seq<TokenView>, vars: Seq<TokenView>|
        #![auto]
        q == body + vars + seq![TokenView::Eos] && is_postfix_body(body) && are_bindings(vars)
}

/// Closing a group keeps the stack a stack and the output an output.
pub proof fn close_group_keeps_shape(stack: Seq<TokenView>, out: Seq<TokenView>)
    requires
        is_operator_stack(stack),
        is_postfix_body(out),
    ensures
        match close_group(stack, out) {
            Some((rest, emitted)) => is_operator_stack(rest) && is_postfix_body(emitted),
            None => true,
        },
    decreases stack.len(),
{
    if stack.len() > 0 {
        assert(stack.last().is_operator() || stack.last() is ParL);
        assert forall|i: int| 0 <= i < stack.drop_last().len() implies (
        #[trigger] stack.drop_last()[i]).is_operator() || stack.drop_last()[i] is ParL by {
            assert(stack.drop_last()[i] == stack[i]);
        }
        if !(stack.last() is ParL) {
            close_group_keeps_shape(stack.drop_last(), out.push(stack.last()));
        }
    }
}

/// Popping operators keeps the stack a stack and the output an output.
pub proof fn pop_higher_keeps_shape(stack: Seq<TokenView>, out: Seq<TokenView>, w: nat)
    requires
        is_operator_stack(stack),
        is_postfix_body(out),
        w >= 1,
    ensures
        is_operator_stack(pop_higher(stack, out, w).0),
        is_postfix_body(pop_higher(stack, out, w).1),
    decreases stack.len(),
{
    if stack.len() > 0 && stack.last().weight() >= w {
        assert(stack.last().is_operator() || stack.last() is ParL);
        assert forall|i: int| 0 <= i < stack.drop_last().len() implies (
        #[trigger] stack.drop_last()[i]).is_operator() || stack.drop_last()[i] is ParL by {
            assert(stack.drop_last()[i] == stack[i]);
        }
        pop_higher_keeps_shape(stack.drop_last(), out.push(stack.last()), w);
    }
}

/// Emptying the stack keeps the output an output.
pub proof fn flush_keeps_shape(stack: Seq<TokenView>, out: Seq<TokenView>)
    requires
        is_operator_stack(stack),
        is_postfix_body(out),
    ensures
        flush(stack, out) is Some ==> is_postfix_body(flush(stack, out)->0),
    decreases stack.len(),
{
    if stack.len() > 0 {
        assert(stack.last().is_operator() || stack.last() is ParL);
        assert forall|i: int| 0 <= i < stack.drop_last().len() implies (
        #[trigger] stack.drop_last()[i]).is_operator() || stack.drop_last()[i] is ParL by {
            assert(stack.drop_last()[i] == stack[i]);
        }
        if !(stack.last() is ParL) {
            flush_keeps_shape(stack.drop_last(), out.push(stack.last()));
        }
    }
}

/// From any state of the right shape the parser ends in postfix form.
pub proof fn shunt_ends_in_postfix_form(
    p: Seq<TokenView>,
    k: int,
    stack: Seq<TokenView>,
    out: Seq<TokenView>,
    vars: Seq<TokenView>,
)
    requires
        0 <= k,
        is_operator_stack(stack),
        is_postfix_body(out),
        are_bindings(vars),
    ensures
        shunt(p, k, stack, out, vars) is Ok ==> is_postfix_form(
            shunt(p, k, stack, out, vars)->Ok_0,
        ),
    decreases p.len() - k,
{
    if k < p.len() && !(p[k] is Eos) {
        let t = p[k];
        if t.is_operand() {
            shunt_ends_in_postfix_form(p, k + 1, stack, out.push(t), vars);
        } else if t is ParL {
            shunt_ends_in_postfix_form(p, k + 1, stack.push(t), out, vars);
        } else if t is ParR {
            close_group_keeps_shape(stack, out);
            if close_group(stack, out) is Some {
                let (rest, emitted) = close_group(stack, out)->0;
                shunt_ends_in_postfix_form(p, k + 1, rest, emitted, vars);
            }
        } else if t.is_operator() {
            pop_higher_keeps_shape(stack, out, t.weight());
            let (rest, emitted) = pop_higher(stack, out, t.weight());
            shunt_ends_in_postfix_form(p, k + 1, rest.push(t), emitted, vars);
        } else if t is Var {
            shunt_ends_in_postfix_form(p, k + 1, stack, out, vars.push(t));
        }
    } else {
        flush_keeps_shape(stack, out);
    }
}

/// What the parser returns is in postfix form: operands and operators,
/// then the bindings, then the one end of input, and no parenthesis.
pub proof fn postfix_is_in_postfix_form(p: Seq<TokenView>)
    ensures
        postfix(p) is Ok ==> is_postfix_form(postfix(p)->Ok_0),
{
    shunt_ends_in_postfix_form(p, 0, Seq::empty(), Seq::empty(), Seq::empty());
}

} // verus!

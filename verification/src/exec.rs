//! The evaluator's front: variable bindings, leaf resolution, and the
//! postfix program that an expression tree stands for.
use vstd::prelude::*;
use crate::ast::{build, built, BuildError, Node, NodeKind, Tree, AST};
use crate::chars::{chars_of, string_of};
use crate::config::Config;
use crate::function::{defined_on, lookup, takes, Catalog, EvalError, FunctionRef};
use crate::lex::{lexed, Lex, LexError};
use crate::number::{
    all_numbers, has_even_whole_text, is_negative_text, is_number, is_number_text, is_zero_text,
};
use crate::parser::{
    are_bindings, is_postfix_body, postfix, postfix_is_in_postfix_form, ParseError,
    Parser,
};
use crate::token::{clone_texts, texts, Token, TokenView};

verus! {

/// Why a text has no value, by the stage that found out.
#[derive(Debug, Clone, Copy, PartialEq, Eq, Structural)]
pub enum Error {
    Lex(LexError),
    Parse(ParseError),
    Build(BuildError),
    Eval(EvalError),
}

impl Error {
    /// The rule that was violated, in words.
    pub open spec fn text(self) -> Seq<char> {
        match self {
            Error::Lex(LexError::UnreadableChar(_)) => "a character that starts no token"@,
            Error::Lex(LexError::MissingBounds) => "a big operator misses its bounds"@,
            Error::Lex(LexError::EmptyBinding) => "a binding holds no text"@,
            Error::Lex(LexError::UnexpectedEnd) => "the text ends where a token must start"@,
            Error::Parse(ParseError::UnexpectedToken) => "a token that should not occur here"@,
            Error::Parse(ParseError::UnbalancedGrouping) => "a parenthesis without its partner"@,
            Error::Build(BuildError::MissingOperand) => "an operator misses an operand"@,
            Error::Build(BuildError::UnexpectedToken) => "a token that is no part of a tree"@,
            Error::Build(BuildError::NotOneTree) => "the tokens do not make one expression"@,
            Error::Eval(EvalError::UnknownFunction) => "a function that is not known"@,
            Error::Eval(EvalError::UnknownSymbol) => "a symbol that is neither number nor variable"@,
            Error::Eval(EvalError::ArgumentDomainError) => "a function is not defined on its arguments"@,
            Error::Eval(EvalError::MalformedVariableBinding) => "a binding is not name=number"@,
        }
    }

    /// A message that names the rule that was violated.
    pub fn message(&self) -> (m: String)
        ensures
            m@ == self.text(),
    {
        let text: &str = match self {
            Error::Lex(LexError::UnreadableChar(_)) => "a character that starts no token",
            Error::Lex(LexError::MissingBounds) => "a big operator misses its bounds",
            Error::Lex(LexError::EmptyBinding) => "a binding holds no text",
            Error::Lex(LexError::UnexpectedEnd) => "the text ends where a token must start",
            Error::Parse(ParseError::UnexpectedToken) => "a token that should not occur here",
            Error::Parse(ParseError::UnbalancedGrouping) => "a parenthesis without its partner",
            Error::Build(BuildError::MissingOperand) => "an operator misses an operand",
            Error::Build(BuildError::UnexpectedToken) => "a token that is no part of a tree",
            Error::Build(BuildError::NotOneTree) => "the tokens do not make one expression",
            Error::Eval(EvalError::UnknownFunction) => "a function that is not known",
            Error::Eval(EvalError::UnknownSymbol) => "a symbol that is neither number nor variable",
            Error::Eval(EvalError::ArgumentDomainError) => "a function is not defined on its arguments",
            Error::Eval(EvalError::MalformedVariableBinding) => "a binding is not name=number",
        };
        String::from_str(text)
    }
}

/// One instruction of a postfix program over a stack of numbers.
#[derive(Debug, Clone, PartialEq)]
pub enum Step {
    /// Push the number that this decimal literal writes.
    Number(String),
    /// Push the value of the function on these optional and required
    /// arguments, each a decimal literal.
    Call(FunctionRef, Vec<String>, Vec<String>),
    /// Replace the two numbers on top, `a` below `b`, by `a + b`.
    Add,
    /// Replace them by `a - b`.
    Sub,
    /// Replace them by `a * b`.
    Times,
    /// Replace them by `a / b`, as floating-point division gives it.
    Div,
    /// Replace them by `a` to the power of `b` cut to a whole number.
    Power,
    /// Replace them by `a` to the real power `b`, at high precision.
    PrecisePower,
}

/// The mathematical value of a [`Step`].
pub enum StepView {
    Number(Seq<char>),
    Call(FunctionRef, Seq<Seq<char>>, Seq<Seq<char>>),
    Add,
    Sub,
    Times,
    Div,
    Power,
    PrecisePower,
}

impl View for Step {
    type V = StepView;

    open spec fn view(&self) -> StepView {
        match *self {
            Step::Number(text) => StepView::Number(text@),
            Step::Call(f, optional, required) => StepView::Call(
                f,
                texts(optional@),
                texts(required@),
            ),
            Step::Add => StepView::Add,
            Step::Sub => StepView::Sub,
            Step::Times => StepView::Times,
            Step::Div => StepView::Div,
            Step::Power => StepView::Power,
            Step::PrecisePower => StepView::PrecisePower,
        }
    }
}

/// The values of a program's steps.
pub open spec fn steps_view(steps: Seq<Step>) -> Seq<StepView> {
    steps.map_values(|s: Step| s@)
}

/// The values of a list of bindings: name and value text of each.
pub open spec fn pairs_view(pairs: Seq<(String, String)>) -> Seq<(Seq<char>, Seq<char>)> {
    pairs.map_values(|p: (String, String)| (p.0@, p.1@))
}

/// Where the first `=` at or behind `from` stands, or the length of the
/// text if there is none.
pub open spec fn first_equal(s: Seq<char>, from: int) -> int
    decreases s.len() - from,
{
    if 0 <= from < s.len() && s[from] != '=' {
        first_equal(s, from + 1)
    } else {
        from
    }
}

/// A text without the blanks at its start.
pub open spec fn trim_start(s: Seq<char>) -> Seq<char>
    decreases s.len(),
{
    if s.len() > 0 && s.first() == ' ' {
        trim_start(s.drop_first())
    } else {
        s
    }
}

/// A text without the blanks at its end.
pub open spec fn trim_end(s: Seq<char>) -> Seq<char>
    decreases s.len(),
{
    if s.len() > 0 && s.last() == ' ' {
        trim_end(s.drop_last())
    } else {
        s
    }
}

/// A text without the blanks at its start and at its end.
pub open spec fn trimmed(s: Seq<char>) -> Seq<char> {
    trim_end(trim_start(s))
}

/// The name and the value text of a binding `name=value`: what stands
/// before the first `=` and what stands behind it, both trimmed. The
/// value must write a number.
pub open spec fn binding(b: Seq<char>) -> Result<(Seq<char>, Seq<char>), EvalError> {
    let eq = first_equal(b, 0);
    if 0 <= eq < b.len() && is_number(trimmed(b.subrange(eq + 1, b.len() as int))) {
        Ok((trimmed(b.subrange(0, eq)), trimmed(b.subrange(eq + 1, b.len() as int))))
    } else {
        Err(EvalError::MalformedVariableBinding)
    }
}

/// The bindings that the texts from `k` on give, behind those in `acc`.
pub open spec fn bound_from(
    texts: Seq<Seq<char>>,
    k: int,
    acc: Seq<(Seq<char>, Seq<char>)>,
) -> Result<Seq<(Seq<char>, Seq<char>)>, EvalError>
    decreases texts.len() - k,
{
    if 0 <= k < texts.len() {
        match binding(texts[k]) {
            Ok(pair) => bound_from(texts, k + 1, acc.push(pair)),
            Err(e) => Err(e),
        }
    } else {
        Ok(acc)
    }
}

/// The bindings that a list of `name=value` texts gives, in their order.
pub open spec fn bound(texts: Seq<Seq<char>>) -> Result<Seq<(Seq<char>, Seq<char>)>, EvalError> {
    bound_from(texts, 0, Seq::empty())
}

/// The value text bound to `name`: that of the last binding of that name.
pub open spec fn value_of(vars: Seq<(Seq<char>, Seq<char>)>, name: Seq<char>) -> Option<Seq<char>>
    decreases vars.len(),
{
    if vars.len() == 0 {
        None
    } else if vars.last().0 == name {
        Some(vars.last().1)
    } else {
        value_of(vars.drop_last(), name)
    }
}

/// The decimal literal that a leaf's text stands for: the text itself if
/// it writes a number, else the value bound to it as a variable's name.
pub open spec fn resolved(vars: Seq<(Seq<char>, Seq<char>)>, text: Seq<char>) -> Option<Seq<char>> {
    if is_number(text) {
        Some(text)
    } else {
        value_of(vars, text)
    }
}

/// The step of an operator: `^` is computed at high precision if `precise`.
pub open spec fn operation(op: TokenView, precise: bool) -> Option<StepView> {
    match op {
        TokenView::Add => Some(StepView::Add),
        TokenView::Sub => Some(StepView::Sub),
        TokenView::Times => Some(StepView::Times),
        TokenView::Div => Some(StepView::Div),
        TokenView::Superscript(_) => Some(
            if precise {
                StepView::PrecisePower
            } else {
                StepView::Power
            },
        ),
        _ => None,
    }
}

/// The step of a call of `name` on the given argument texts: the name
/// must be known, every argument must write a number (a variable's name
/// does not), the function must take that many arguments and be defined
/// on them.
pub open spec fn call_of(
    names: Seq<Seq<char>>,
    name: Seq<char>,
    optional: Seq<Seq<char>>,
    required: Seq<Seq<char>>,
) -> Result<StepView, EvalError> {
    match lookup(names, name) {
        Err(e) => Err(e),
        Ok(f) => if all_numbers(optional) && all_numbers(required) && takes(
            f,
            optional.len(),
            required.len(),
        ) && defined_on(f, optional, required) {
            Ok(StepView::Call(f, optional, required))
        } else {
            Err(EvalError::ArgumentDomainError)
        },
    }
}

/// The postfix program of a tree: the program of the left child, that of
/// the right child, then the operator's step; a leaf is one step. The
/// first failure, left before right, is the failure of the whole.
pub open spec fn plan_of(
    t: Tree,
    vars: Seq<(Seq<char>, Seq<char>)>,
    names: Seq<Seq<char>>,
    precise: bool,
) -> Result<Seq<StepView>, EvalError>
    decreases t,
{
    match t {
        Tree::Value(TokenView::Expression(text)) => match resolved(vars, text) {
            Some(literal) => Ok(seq![StepView::Number(literal)]),
            None => Err(EvalError::UnknownSymbol),
        },
        Tree::Value(TokenView::Function(name, optional, required)) => match call_of(
            names,
            name,
            optional,
            required,
        ) {
            Ok(step) => Ok(seq![step]),
            Err(e) => Err(e),
        },
        Tree::Value(_) => Err(EvalError::UnknownSymbol),
        Tree::Operator(op, left, right) => match plan_of(*left, vars, names, precise) {
            Err(e) => Err(e),
            Ok(first) => match plan_of(*right, vars, names, precise) {
                Err(e) => Err(e),
                Ok(second) => match operation(op, precise) {
                    Some(step) => Ok(first + second + seq![step]),
                    None => Err(EvalError::UnknownSymbol),
                },
            },
        },
    }
}

/// The tree and the bindings of the text `s` read from `i`, or the first
/// failure of the stages: lexer, parser, tree builder, bindings.
pub open spec fn compiled(s: Seq<char>, i: int) -> Result<
    (Tree, Seq<(Seq<char>, Seq<char>)>),
    Error,
> {
    match lexed(s, i) {
        Err(e) => Err(Error::Lex(e)),
        Ok(infix) => match postfix(infix) {
            Err(e) => Err(Error::Parse(e)),
            Ok(post) => match built(post) {
                Err(e) => Err(Error::Build(e)),
                Ok((tree, bindings)) => match bound(bindings) {
                    Err(e) => Err(Error::Eval(e)),
                    Ok(vars) => Ok((tree, vars)),
                },
            },
        },
    }
}

/// Whether a step pushes a number that is written out in full: a decimal
/// literal, or a call on decimal literals that the function takes.
pub open spec fn is_ground(step: StepView) -> bool {
    match step {
        StepView::Number(text) => is_number(text),
        StepView::Call(f, optional, required) => all_numbers(optional) && all_numbers(required)
            && takes(f, optional.len(), required.len()),
        _ => true,
    }
}

/// How many numbers lie on the stack after the steps have run on a stack
/// of `depth` numbers; `None` if an operator finds fewer than two.
pub open spec fn depth_after(steps: Seq<StepView>, depth: int) -> Option<int>
    decreases steps.len(),
{
    if steps.len() == 0 {
        Some(depth)
    } else {
        match depth_after(steps.drop_last(), depth) {
            None => None,
            Some(d) => match steps.last() {
                StepView::Number(_) | StepView::Call(_, _, _) => Some(d + 1),
                _ => if d >= 2 {
                    Some(d - 1)
                } else {
                    None
                },
            },
        }
    }
}

/// A program that can be run as it stands: every number in it is written
/// out, no operator finds the stack short, and exactly one number is left
/// at the end.
pub open spec fn is_runnable(steps: Seq<StepView>) -> bool {
    &&& forall|i: int| 0 <= i < steps.len() ==> is_ground(#[trigger] steps[i])
    &&& depth_after(steps, 0) == Some(1int)
}

/// Running two programs one after the other is running their
/// concatenation.
pub proof fn depth_after_both(first: Seq<StepView>, second: Seq<StepView>, depth: int)
    ensures
        depth_after(first + second, depth) == match depth_after(first, depth) {
            None => None,
            Some(d) => depth_after(second, d),
        },
    decreases second.len(),
{
    if second.len() == 0 {
        assert(first + second =~= first);
    } else {
        assert((first + second).drop_last() =~= first + second.drop_last());
        depth_after_both(first, second.drop_last(), depth);
    }
}

/// The program of a tree leaves one number more on the stack than it
/// found there, and no operator in it finds the stack short.
pub proof fn plan_pushes_one_number(
    t: Tree,
    vars: Seq<(Seq<char>, Seq<char>)>,
    names: Seq<Seq<char>>,
    precise: bool,
    depth: int,
)
    requires
        depth >= 0,
    ensures
        plan_of(t, vars, names, precise) is Ok ==> depth_after(
            plan_of(t, vars, names, precise)->Ok_0,
            depth,
        ) == Some(depth + 1),
    decreases t,
{
    if plan_of(t, vars, names, precise) is Ok {
        let steps = plan_of(t, vars, names, precise)->Ok_0;
        match t {
            Tree::Value(_) => {
                assert(steps.len() == 1);
                assert(steps.drop_last() =~= Seq::<StepView>::empty());
                assert(depth_after(steps.drop_last(), depth) == Some(depth));
                assert(steps.last() is Number || steps.last() is Call);
            },
            Tree::Operator(op, left, right) => {
                let first = plan_of(*left, vars, names, precise)->Ok_0;
                let second = plan_of(*right, vars, names, precise)->Ok_0;
                let step = operation(op, precise)->0;
                plan_pushes_one_number(*left, vars, names, precise, depth);
                plan_pushes_one_number(*right, vars, names, precise, depth + 1);
                depth_after_both(first, second, depth);
                assert(steps == first + second + seq![step]);
                assert(steps.drop_last() =~= first + second);
                assert(steps.last() == step);
                assert(depth_after(steps.drop_last(), depth) == Some(depth + 2));
            },
        }
    }
}

/// Whether every binding's value writes a number.
pub open spec fn values_are_numbers(vars: Seq<(Seq<char>, Seq<char>)>) -> bool {
    forall|i: int| 0 <= i < vars.len() ==> is_number((#[trigger] vars[i]).1)
}

/// The value bound to a name is the value of one of the bindings.
pub proof fn value_of_is_a_value(vars: Seq<(Seq<char>, Seq<char>)>, name: Seq<char>)
    requires
        values_are_numbers(vars),
    ensures
        value_of(vars, name) is Some ==> is_number(value_of(vars, name)->0),
    decreases vars.len(),
{
    if vars.len() > 0 {
        assert(is_number(vars[vars.len() - 1].1));
        if vars.last().0 != name {
            assert forall|i: int| 0 <= i < vars.drop_last().len() implies is_number(
                (#[trigger] vars.drop_last()[i]).1,
            ) by {
                assert(vars.drop_last()[i] == vars[i]);
            }
            value_of_is_a_value(vars.drop_last(), name);
        }
    }
}

/// Every binding that a list of texts gives holds a number as its value.
pub proof fn bound_values_are_numbers(
    texts: Seq<Seq<char>>,
    k: int,
    acc: Seq<(Seq<char>, Seq<char>)>,
)
    requires
        0 <= k,
        values_are_numbers(acc),
    ensures
        bound_from(texts, k, acc) is Ok ==> values_are_numbers(bound_from(texts, k, acc)->Ok_0),
    decreases texts.len() - k,
{
    if k < texts.len() {
        match binding(texts[k]) {
            Ok(pair) => {
                assert forall|i: int| 0 <= i < acc.push(pair).len() implies is_number(
                    (#[trigger] acc.push(pair)[i]).1,
                ) by {
                    if i < acc.len() {
                        assert(acc.push(pair)[i] == acc[i]);
                    }
                }
                bound_values_are_numbers(texts, k + 1, acc.push(pair));
            },
            Err(_) => {},
        }
    }
}

/// Variables are resolved before use: where every binding's value writes
/// a number, the program of a tree names no variable. Each number in it
/// is a decimal literal, and each call is one on decimal literals that
/// the function takes.
pub proof fn plan_is_ground(
    t: Tree,
    vars: Seq<(Seq<char>, Seq<char>)>,
    names: Seq<Seq<char>>,
    precise: bool,
)
    requires
        values_are_numbers(vars),
    ensures
        plan_of(t, vars, names, precise) is Ok ==> forall|i: int|
            0 <= i < plan_of(t, vars, names, precise)->Ok_0.len() ==> is_ground(
                #[trigger] plan_of(t, vars, names, precise)->Ok_0[i],
            ),
    decreases t,
{
    if plan_of(t, vars, names, precise) is Ok {
        match t {
            Tree::Value(TokenView::Expression(text)) => {
                value_of_is_a_value(vars, text);
            },
            Tree::Value(_) => {},
            Tree::Operator(op, left, right) => {
                plan_is_ground(*left, vars, names, precise);
                plan_is_ground(*right, vars, names, precise);
            },
        }
    }
}

/// The program of a tree can be run as it stands, where every binding's
/// value writes a number.
pub proof fn plan_is_runnable(
    t: Tree,
    vars: Seq<(Seq<char>, Seq<char>)>,
    names: Seq<Seq<char>>,
    precise: bool,
)
    requires
        values_are_numbers(vars),
    ensures
        plan_of(t, vars, names, precise) is Ok ==> is_runnable(
            plan_of(t, vars, names, precise)->Ok_0,
        ),
{
    plan_is_ground(t, vars, names, precise);
    plan_pushes_one_number(t, vars, names, precise, 0);
}

/// The bounds of `v[lo..hi]` without the blanks at its start and end.
fn trim_range(v: &Vec<char>, lo: usize, hi: usize) -> (r: (usize, usize))
    requires
        lo <= hi <= v@.len(),
    ensures
        lo <= r.0 <= r.1 <= hi,
        v@.subrange(r.0 as int, r.1 as int) == trimmed(v@.subrange(lo as int, hi as int)),
{
    let mut a: usize = lo;
    while a < hi && v[a] == ' '
        invariant
            lo <= a <= hi <= v@.len(),
            trim_start(v@.subrange(lo as int, hi as int)) == trim_start(
                v@.subrange(a as int, hi as int),
            ),
        decreases hi - a,
    {
        assert(v@.subrange(a as int, hi as int).drop_first() =~= v@.subrange(a + 1, hi as int));
        a += 1;
    }
    let mut b: usize = hi;
    while b > a && v[b - 1] == ' '
        invariant
            a <= b <= hi <= v@.len(),
            trim_end(v@.subrange(a as int, hi as int)) == trim_end(
                v@.subrange(a as int, b as int),
            ),
        decreases b - a,
    {
        assert(v@.subrange(a as int, b as int).drop_last() =~= v@.subrange(a as int, b - 1));
        b -= 1;
    }
    (a, b)
}

/// Splits a binding `name=value` at its first `=` and trims both sides;
/// the value must write a number.
pub fn parse_binding(text: &String) -> (r: Result<(String, String), EvalError>)
    ensures
        match r {
            Ok(pair) => binding(text@) == Ok::<(Seq<char>, Seq<char>), EvalError>(
                (pair.0@, pair.1@),
            ),
            Err(e) => binding(text@) == Err::<(Seq<char>, Seq<char>), EvalError>(e),
        },
{
    let v: Vec<char> = chars_of(text.as_str());
    let n: usize = v.len();
    let mut eq: usize = 0;
    while eq < n && v[eq] != '='
        invariant
            n == v@.len(),
            eq <= n,
            first_equal(v@, 0) == first_equal(v@, eq as int),
        decreases n - eq,
    {
        eq += 1;
    }
    if eq >= n {
        return Err(EvalError::MalformedVariableBinding);
    }
    let (a, b) = trim_range(&v, 0, eq);
    let (c, d) = trim_range(&v, eq + 1, n);
    let value: String = string_of(&v, c, d);
    if !is_number_text(&value) {
        return Err(EvalError::MalformedVariableBinding);
    }
    let name: String = string_of(&v, a, b);
    Ok((name, value))
}

/// The bindings of a list of `name=value` texts, in their order.
pub fn parse_var(vars: &Vec<String>) -> (r: Result<Vec<(String, String)>, EvalError>)
    ensures
        match r {
            Ok(pairs) => bound(texts(vars@)) == Ok::<Seq<(Seq<char>, Seq<char>)>, EvalError>(
                pairs_view(pairs@),
            ),
            Err(e) => bound(texts(vars@)) == Err::<Seq<(Seq<char>, Seq<char>)>, EvalError>(e),
        },
{
    let n: usize = vars.len();
    let mut pairs: Vec<(String, String)> = Vec::new();
    let mut k: usize = 0;
    assert(pairs_view(pairs@) =~= Seq::empty());
    while k < n
        invariant
            n == vars@.len(),
            k <= n,
            bound(texts(vars@)) == bound_from(texts(vars@), k as int, pairs_view(pairs@)),
        decreases n - k,
    {
        assert(texts(vars@)[k as int] == vars@[k as int]@);
        match parse_binding(&vars[k]) {
            Err(e) => {
                return Err(e);
            },
            Ok(pair) => {
                assert(pairs_view(pairs@.push(pair)) =~= pairs_view(pairs@).push(
                    (pair.0@, pair.1@),
                ));
                pairs.push(pair);
            },
        }
        k += 1;
    }
    Ok(pairs)
}

/// The value text bound to `name`, if any: that of its last binding.
pub fn lookup_var(vars: &Vec<(String, String)>, name: &String) -> (r: Option<String>)
    ensures
        match r {
            Some(value) => value_of(pairs_view(vars@), name@) == Some(value@),
            None => value_of(pairs_view(vars@), name@) is None,
        },
{
    let ghost all = pairs_view(vars@);
    let mut i: usize = vars.len();
    assert(all.subrange(0, i as int) =~= all);
    while i > 0
        invariant
            all == pairs_view(vars@),
            i <= vars@.len(),
            value_of(all, name@) == value_of(all.subrange(0, i as int), name@),
        decreases i,
    {
        let ghost front = all.subrange(0, i as int);
        assert(front.last() == (vars@[i - 1].0@, vars@[i - 1].1@));
        assert(front.drop_last() =~= all.subrange(0, i - 1));
        if vars[i - 1].0 == *name {
            return Some(vars[i - 1].1.clone());
        }
        i -= 1;
    }
    None
}

/// The decimal literal that a text writes, if it writes a number.
pub fn string_to_known(s: &String) -> (r: Option<String>)
    ensures
        match r {
            Some(literal) => is_number(s@) && literal@ == s@,
            None => !is_number(s@),
        },
{
    if is_number_text(s) {
        Some(s.clone())
    } else {
        None
    }
}

/// The decimal literals that the texts write, if each writes a number.
pub fn strings_to_known(v: &Vec<String>) -> (r: Option<Vec<String>>)
    ensures
        match r {
            Some(literals) => all_numbers(texts(v@)) && texts(literals@) == texts(v@),
            None => !all_numbers(texts(v@)),
        },
{
    let mut i: usize = 0;
    while i < v.len()
        invariant
            i <= v@.len(),
            forall|k: int| 0 <= k < i ==> is_number(#[trigger] texts(v@)[k]),
        decreases v@.len() - i,
    {
        assert(texts(v@)[i as int] == v@[i as int]@);
        if !is_number_text(&v[i]) {
            return None;
        }
        i += 1;
    }
    Some(clone_texts(v))
}

/// The decimal literal that a leaf's text stands for: the text itself if
/// it writes a number, else the value bound to it as a variable's name.
pub fn resolve(vars: &Vec<(String, String)>, text: &String) -> (r: Option<String>)
    ensures
        match r {
            Some(literal) => resolved(pairs_view(vars@), text@) == Some(literal@),
            None => resolved(pairs_view(vars@), text@) is None,
        },
{
    match string_to_known(text) {
        Some(literal) => Some(literal),
        None => lookup_var(vars, text),
    }
}

fn is_defined_on(f: FunctionRef, optional: &Vec<String>, required: &Vec<String>) -> (b: bool)
    requires
        takes(f, optional@.len(), required@.len()),
    ensures
        b == defined_on(f, texts(optional@), texts(required@)),
{
    match f {
        FunctionRef::Frac => {
            assert(texts(required@)[1] == required@[1]@);
            !is_zero_text(&required[1])
        },
        FunctionRef::Sqrt => {
            assert(texts(required@)[0] == required@[0]@);
            assert(texts(optional@)[0] == optional@[0]@);
            !(is_negative_text(&required[0]) && has_even_whole_text(&optional[0]))
        },
        _ => true,
    }
}

/// The step of a call of `name` on the given argument texts.
pub fn plan_call(
    catalog: &Catalog,
    name: &String,
    optional: &Vec<String>,
    required: &Vec<String>,
) -> (r: Result<Step, EvalError>)
    ensures
        match r {
            Ok(step) => call_of(catalog.names(), name@, texts(optional@), texts(required@)) == Ok::<
                StepView,
                EvalError,
            >(step@),
            Err(e) => call_of(catalog.names(), name@, texts(optional@), texts(required@)) == Err::<
                StepView,
                EvalError,
            >(e),
        },
{
    let f: FunctionRef = match catalog.get_function(name) {
        Ok(f) => f,
        Err(e) => {
            return Err(e);
        },
    };
    match (strings_to_known(optional), strings_to_known(required)) {
        (Some(op), Some(re)) => {
            if f.accepts(op.len(), re.len()) && is_defined_on(f, &op, &re) {
                Ok(Step::Call(f, op, re))
            } else {
                Err(EvalError::ArgumentDomainError)
            }
        },
        _ => Err(EvalError::ArgumentDomainError),
    }
}

/// Appends the program of the tree under `node` to `out`.
fn plan_node(
    node: &Node,
    vars: &Vec<(String, String)>,
    catalog: &Catalog,
    precise: bool,
    out: &mut Vec<Step>,
) -> (r: Result<(), EvalError>)
    requires
        node.wf(),
    ensures
        match r {
            Ok(_) => {
                &&& plan_of(node.tree(), pairs_view(vars@), catalog.names(), precise) is Ok
                &&& steps_view(final(out)@) == steps_view(old(out)@) + plan_of(
                    node.tree(),
                    pairs_view(vars@),
                    catalog.names(),
                    precise,
                )->Ok_0
            },
            Err(e) => plan_of(node.tree(), pairs_view(vars@), catalog.names(), precise) == Err::<
                Seq<StepView>,
                EvalError,
            >(e),
        },
    decreases node,
{
    let ghost before = steps_view(out@);
    match node.node_kind {
        NodeKind::Num => {
            let step: Step = match node.value.as_ref().unwrap() {
                Token::Expression(text) => match resolve(vars, text) {
                    Some(literal) => Step::Number(literal),
                    None => {
                        return Err(EvalError::UnknownSymbol);
                    },
                },
                Token::Function(name, optional, required) => match plan_call(
                    catalog,
                    name,
                    optional,
                    required,
                ) {
                    Ok(step) => step,
                    Err(e) => {
                        return Err(e);
                    },
                },
                _ => {
                    return Err(EvalError::UnknownSymbol);
                },
            };
            assert(steps_view(out@.push(step)) =~= before + seq![step@]);
            out.push(step);
            Ok(())
        },
        NodeKind::Op => {
            let left: &Node = node.left.as_ref().unwrap();
            let right: &Node = node.right.as_ref().unwrap();
            match plan_node(left, vars, catalog, precise, out) {
                Err(e) => {
                    return Err(e);
                },
                Ok(_) => {},
            }
            let ghost middle = steps_view(out@);
            match plan_node(right, vars, catalog, precise, out) {
                Err(e) => {
                    return Err(e);
                },
                Ok(_) => {},
            }
            let ghost end = steps_view(out@);
            let step: Step = match node.op.as_ref().unwrap() {
                Token::Add => Step::Add,
                Token::Sub => Step::Sub,
                Token::Times => Step::Times,
                Token::Div => Step::Div,
                Token::Superscript(_) => if precise {
                    Step::PrecisePower
                } else {
                    Step::Power
                },
                _ => {
                    return Err(EvalError::UnknownSymbol);
                },
            };
            proof {
                let first = plan_of(left.tree(), pairs_view(vars@), catalog.names(), precise)->Ok_0;
                let second = plan_of(
                    right.tree(),
                    pairs_view(vars@),
                    catalog.names(),
                    precise,
                )->Ok_0;
                assert(middle == before + first);
                assert(end == middle + second);
                assert(steps_view(out@.push(step)) =~= end.push(step@));
                assert(end.push(step@) =~= before + (first + second + seq![step@]));
            }
            out.push(step);
            Ok(())
        },
    }
}

/// An expression ready to be evaluated: its tree and its variables.
pub struct Exec {
    node: Node,
    vars: Vec<(String, String)>,
}

impl Exec {
    /// The expression tree.
    pub closed spec fn tree(&self) -> Tree {
        self.node.tree()
    }

    /// The variables, as name and value text, in the order of binding.
    pub closed spec fn vars(&self) -> Seq<(Seq<char>, Seq<char>)> {
        pairs_view(self.vars@)
    }

    /// The tree's nodes are well formed, and every variable's value
    /// writes a number.
    pub closed spec fn wf(&self) -> bool {
        self.node.wf() && values_are_numbers(pairs_view(self.vars@))
    }

    /// Lexes, parses and builds the text under `lex` and binds its
    /// variables, or reports the first stage that fails.
    pub fn try_from_lex(lex: Lex) -> (r: Result<Exec, Error>)
        requires
            lex.wf(),
        ensures
            match r {
                Ok(exec) => exec.wf() && compiled(lex.text(), lex.position()) == Ok::<
                    (Tree, Seq<(Seq<char>, Seq<char>)>),
                    Error,
                >((exec.tree(), exec.vars())),
                Err(e) => compiled(lex.text(), lex.position()) == Err::<
                    (Tree, Seq<(Seq<char>, Seq<char>)>),
                    Error,
                >(e),
            },
    {
        let mut lex = lex;
        let infix = match lex.try_parse() {
            Ok(proto) => proto,
            Err(e) => {
                return Err(Error::Lex(e));
            },
        };
        let post = match Parser::from_proto(infix).try_to_postfix_proto() {
            Ok(proto) => proto,
            Err(e) => {
                return Err(Error::Parse(e));
            },
        };
        let ast = match AST::try_new(post) {
            Ok(ast) => ast,
            Err(e) => {
                return Err(Error::Build(e));
            },
        };
        let vars = match parse_var(&ast.1) {
            Ok(vars) => vars,
            Err(e) => {
                return Err(Error::Eval(e));
            },
        };
        proof {
            bound_values_are_numbers(texts(ast.1@), 0, Seq::empty());
        }
        Ok(Exec { node: ast.0, vars })
    }

    /// Lexes, parses and builds the text under `lex` and binds its
    /// variables.
    pub fn from_lex(lex: Lex) -> (exec: Exec)
        requires
            lex.wf(),
            compiled(lex.text(), lex.position()) is Ok,
        ensures
            exec.wf(),
            compiled(lex.text(), lex.position()) == Ok::<
                (Tree, Seq<(Seq<char>, Seq<char>)>),
                Error,
            >((exec.tree(), exec.vars())),
    {
        Exec::try_from_lex(lex).unwrap()
    }

    /// The postfix program that computes the expression's value: every
    /// leaf resolved to a decimal literal or to a call of a known function
    /// on decimal literals, every operator behind its operands.
    pub fn plan(&self, catalog: &Catalog, config: &Config) -> (r: Result<Vec<Step>, EvalError>)
        requires
            self.wf(),
        ensures
            r is Ok ==> is_runnable(steps_view(r->Ok_0@)),
            match r {
                Ok(steps) => plan_of(
                    self.tree(),
                    self.vars(),
                    catalog.names(),
                    config.high_accuracy,
                ) == Ok::<Seq<StepView>, EvalError>(steps_view(steps@)),
                Err(e) => plan_of(
                    self.tree(),
                    self.vars(),
                    catalog.names(),
                    config.high_accuracy,
                ) == Err::<Seq<StepView>, EvalError>(e),
            },
    {
        let mut out: Vec<Step> = Vec::new();
        assert(steps_view(out@) =~= Seq::empty());
        proof {
            plan_is_runnable(self.tree(), self.vars(), catalog.names(), config.high_accuracy);
        }
        match plan_node(&self.node, &self.vars, catalog, config.high_accuracy, &mut out) {
            Err(e) => Err(e),
            Ok(_) => {
                assert(Seq::<StepView>::empty() + steps_view(out@) =~= steps_view(out@));
                Ok(out)
            },
        }
    }
}

/// A sequence of operands, operators, bindings and ends of input holds no
/// token that the tree builder refuses.
pub proof fn build_meets_no_stray_token(
    q: Seq<TokenView>,
    k: int,
    stack: Seq<Tree>,
    vars: Seq<Seq<char>>,
)
    requires
        0 <= k,
        forall|i: int|
            k <= i < q.len() ==> (#[trigger] q[i]).is_operand() || q[i].is_operator() || q[i] is Var
                || q[i] is Eos,
    ensures
        build(q, k, stack, vars) != Err::<(Tree, Seq<Seq<char>>), BuildError>(
            BuildError::UnexpectedToken,
        ),
    decreases q.len() - k,
{
    if k < q.len() && !(q[k] is Eos) {
        let t = q[k];
        assert(t.is_operand() || t.is_operator() || t is Var);
        match t {
            TokenView::Expression(_) | TokenView::Function(_, _, _) => {
                build_meets_no_stray_token(q, k + 1, stack.push(Tree::Value(t)), vars);
            },
            TokenView::Superscript(exponent) => {
                if stack.len() >= 1 {
                    let node = Tree::Operator(
                        t,
                        Box::new(stack.last()),
                        Box::new(Tree::Value(TokenView::Expression(exponent))),
                    );
                    build_meets_no_stray_token(q, k + 1, stack.drop_last().push(node), vars);
                }
            },
            TokenView::Add | TokenView::Sub | TokenView::Times | TokenView::Div => {
                if stack.len() >= 2 {
                    let node = Tree::Operator(
                        t,
                        Box::new(stack[stack.len() - 2]),
                        Box::new(stack.last()),
                    );
                    build_meets_no_stray_token(
                        q,
                        k + 1,
                        stack.drop_last().drop_last().push(node),
                        vars,
                    );
                }
            },
            TokenView::Var(binding) => {
                build_meets_no_stray_token(q, k + 1, stack, vars.push(binding));
            },
            _ => {},
        }
    }
}

/// The parser hands the tree builder no token that it refuses: what comes
/// out of the parser either builds a tree, or lacks an operand, or leaves
/// more or less than one tree.
pub proof fn parsed_sequences_hold_no_stray_token(p: Seq<TokenView>)
    ensures
        postfix(p) is Ok ==> built(postfix(p)->Ok_0) != Err::<(Tree, Seq<Seq<char>>), BuildError>(
            BuildError::UnexpectedToken,
        ),
{
    if postfix(p) is Ok {
        let q = postfix(p)->Ok_0;
        postfix_is_in_postfix_form(p);
        let (body, vars) = choose|body: Seq<TokenView>, vars: Seq<TokenView>|
            #![auto]
            q == body + vars + seq![TokenView::Eos] && is_postfix_body(body) && are_bindings(vars);
        assert forall|i: int| 0 <= i < q.len() implies (#[trigger] q[i]).is_operand()
            || q[i].is_operator() || q[i] is Var || q[i] is Eos by {
            if i < body.len() {
                assert(q[i] == body[i]);
            } else if i < body.len() + vars.len() {
                assert(q[i] == vars[i - body.len()]);
            }
        }
        build_meets_no_stray_token(q, 0, Seq::empty(), Seq::empty());
    }
}

} // verus!

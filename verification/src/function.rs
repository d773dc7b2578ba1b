//! The function registry: the built-in functions and the extensions that
//! were registered, found by name.
use vstd::prelude::*;
use crate::chars::is_text;
use crate::number::{has_even_whole, is_negative_number, is_zero_number};
use crate::token::{texts, texts_push};

verus! {

/// Why an expression has no value.
#[derive(Debug, Clone, Copy, PartialEq, Eq, Structural)]
pub enum EvalError {
    /// A function's name that is neither built in nor registered.
    UnknownFunction,
    /// A leaf that is neither a number nor a bound variable.
    UnknownSymbol,
    /// Arguments on which the function is not defined.
    ArgumentDomainError,
    /// A binding without `=`, or whose value is no number.
    MalformedVariableBinding,
}

/// A function that an expression can call.
#[derive(Debug, Clone, Copy, PartialEq, Eq, Structural)]
pub enum FunctionRef {
    /// `\frac{a}{b}`: `a / b`.
    Frac,
    /// `\sqrt[n]{x}`: the real `n`-th root of `x`.
    Sqrt,
    /// `\int_lo^hi` over three samples, by Simpson's rule.
    Int,
    /// `\sum` of its arguments.
    Sum,
    /// The extension that was registered at this position.
    Extern(usize),
}

/// The built-in function of a name, if there is one.
pub open spec fn builtin(name: Seq<char>) -> Option<FunctionRef> {
    if name == "frac"@ {
        Some(FunctionRef::Frac)
    } else if name == "sqrt"@ {
        Some(FunctionRef::Sqrt)
    } else if name == "int"@ {
        Some(FunctionRef::Int)
    } else if name == "sum"@ {
        Some(FunctionRef::Sum)
    } else {
        None
    }
}

/// The first position at or behind `from` at which `names` holds `name`.
pub open spec fn first_index(names: Seq<Seq<char>>, name: Seq<char>, from: int) -> Option<int>
    decreases names.len() - from,
{
    if 0 <= from < names.len() {
        if names[from] == name {
            Some(from)
        } else {
            first_index(names, name, from + 1)
        }
    } else {
        None
    }
}

/// The function that `name` stands for where the extensions `names` are
/// registered: the built-in of that name, else the first extension of
/// that name.
pub open spec fn lookup(names: Seq<Seq<char>>, name: Seq<char>) -> Result<FunctionRef, EvalError> {
    match builtin(name) {
        Some(f) => Ok(f),
        None => match first_index(names, name, 0) {
            Some(i) => Ok(FunctionRef::Extern(i as usize)),
            None => Err(EvalError::UnknownFunction),
        },
    }
}

/// Whether a function takes `optional` optional and `required` required
/// arguments: `frac` needs two required ones; `sqrt` an index and a
/// radicand; `int` two bounds and three samples; `sum` one value or more.
/// An extension judges its arguments itself.
pub open spec fn takes(f: FunctionRef, optional: nat, required: nat) -> bool {
    match f {
        FunctionRef::Frac => required >= 2,
        FunctionRef::Sqrt => optional >= 1 && required >= 1,
        FunctionRef::Int => optional >= 2 && required >= 3,
        FunctionRef::Sum => required >= 1,
        FunctionRef::Extern(_) => true,
    }
}

/// Whether a built-in function is defined on arguments that it takes,
/// each of which writes a number: `frac` is not where the divisor is
/// zero, `sqrt` is not where the radicand is below zero and the whole part
/// of the index is even.
pub open spec fn defined_on(
    f: FunctionRef,
    optional: Seq<Seq<char>>,
    required: Seq<Seq<char>>,
) -> bool {
    match f {
        FunctionRef::Frac => !is_zero_number(required[1]),
        FunctionRef::Sqrt => !(is_negative_number(required[0]) && has_even_whole(optional[0])),
        _ => true,
    }
}

impl FunctionRef {
    /// Whether the function takes this many arguments.
    pub fn accepts(&self, optional: usize, required: usize) -> (b: bool)
        ensures
            b == takes(*self, optional as nat, required as nat),
    {
        match self {
            FunctionRef::Frac => required >= 2,
            FunctionRef::Sqrt => optional >= 1 && required >= 1,
            FunctionRef::Int => optional >= 2 && required >= 3,
            FunctionRef::Sum => required >= 1,
            FunctionRef::Extern(_) => true,
        }
    }
}

/// The names of the registered extensions, in the order of registration.
pub struct Catalog {
    names: Vec<String>,
}

impl Catalog {
    /// The names registered so far.
    pub closed spec fn names(&self) -> Seq<Seq<char>> {
        texts(self.names@)
    }

    /// A catalog with the built-in functions alone.
    pub fn new() -> (catalog: Catalog)
        ensures
            catalog.names() == Seq::<Seq<char>>::empty(),
    {
        let names: Vec<String> = Vec::new();
        assert(texts(names@) =~= Seq::empty());
        Catalog { names }
    }

    /// How many extensions are registered.
    pub fn len(&self) -> (n: usize)
        ensures
            n == self.names().len(),
    {
        self.names.len()
    }

    /// Registers an extension under `name`, behind those registered
    /// before, and returns its position.
    pub fn register_extern_function(&mut self, name: String) -> (index: usize)
        ensures
            final(self).names() == old(self).names().push(name@),
            index == old(self).names().len(),
    {
        proof {
            texts_push(self.names@, name);
        }
        let index: usize = self.names.len();
        self.names.push(name);
        index
    }

    /// The function that `name` stands for: a built-in first, then the
    /// extension of that name that was registered first.
    pub fn get_function(&self, name: &String) -> (r: Result<FunctionRef, EvalError>)
        ensures
            r == lookup(self.names(), name@),
    {
        if is_text(name, "frac") {
            return Ok(FunctionRef::Frac);
        }
        if is_text(name, "sqrt") {
            return Ok(FunctionRef::Sqrt);
        }
        if is_text(name, "int") {
            return Ok(FunctionRef::Int);
        }
        if is_text(name, "sum") {
            return Ok(FunctionRef::Sum);
        }
        let n: usize = self.names.len();
        let mut i: usize = 0;
        while i < n
            invariant
                n == self.names@.len(),
                i <= n,
                builtin(name@) is None,
                first_index(self.names(), name@, 0) == first_index(self.names(), name@, i as int),
            decreases n - i,
        {
            assert(self.names()[i as int] == self.names@[i as int]@);
            if self.names[i] == *name {
                return Ok(FunctionRef::Extern(i));
            }
            i += 1;
        }
        Err(EvalError::UnknownFunction)
    }
}

/// A built-in is found under its name whatever has been registered: no
/// extension can take its place.
pub proof fn builtins_are_never_shadowed(names: Seq<Seq<char>>, name: Seq<char>)
    requires
        builtin(name) is Some,
    ensures
        lookup(names, name) == Ok::<FunctionRef, EvalError>(builtin(name)->0),
{
}

/// The first position of a name does not change when a name is added at
/// the end.
pub proof fn first_index_is_kept(
    names: Seq<Seq<char>>,
    added: Seq<char>,
    name: Seq<char>,
    from: int,
)
    requires
        0 <= from,
        first_index(names, name, from) is Some,
    ensures
        first_index(names.push(added), name, from) == first_index(names, name, from),
    decreases names.len() - from,
{
    if from < names.len() && names[from] != name {
        first_index_is_kept(names, added, name, from + 1);
    }
}

/// Registration only adds: a name that was found before one more
/// extension is registered is found afterwards, and stands for the same
/// function.
pub proof fn registration_keeps_what_was_found(
    names: Seq<Seq<char>>,
    added: Seq<char>,
    name: Seq<char>,
)
    requires
        lookup(names, name) is Ok,
    ensures
        lookup(names.push(added), name) == lookup(names, name),
{
    if builtin(name) is None {
        first_index_is_kept(names, added, name, 0);
    }
}

/// A name that was unknown is found after it has been registered, at the
/// position that registration returned.
pub proof fn registered_name_is_found(names: Seq<Seq<char>>, name: Seq<char>)
    requires
        lookup(names, name) is Err,
        names.len() <= usize::MAX,
    ensures
        lookup(names.push(name), name) == Ok::<FunctionRef, EvalError>(
            FunctionRef::Extern(names.len() as usize),
        ),
{
    first_index_of_new(names, name, 0);
}

/// A name that does not occur from `from` on is first found at the end
/// once it is added there.
pub proof fn first_index_of_new(names: Seq<Seq<char>>, name: Seq<char>, from: int)
    requires
        0 <= from <= names.len(),
        first_index(names, name, from) is None,
    ensures
        first_index(names.push(name), name, from) == Some(names.len() as int),
    decreases names.len() - from,
{
    if from < names.len() {
        first_index_of_new(names, name, from + 1);
    }
}

} // verus!

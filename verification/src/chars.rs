//! Characters and strings: what is taken from `std` on trust, and the
//! conversions between a string and its characters.
use vstd::prelude::*;
use vstd::std_specs::iter::IteratorSpec;

verus! {

/// Whether `char::is_alphanumeric` holds of a character: the Unicode
/// classes Alphabetic, Nd, Nl and No.
pub uninterp spec fn alphanumeric(c: char) -> bool;

/// Whether `char::is_numeric` holds of a character: the Unicode classes
/// Nd, Nl and No.
pub uninterp spec fn numeric(c: char) -> bool;

/// `char::is_alphanumeric` depends on the character alone; its answer is
/// named by [`alphanumeric`].
pub assume_specification[ char::is_alphanumeric ](c: char) -> (b: bool)
    ensures
        b == alphanumeric(c),
;

/// `char::is_numeric` depends on the character alone; its answer is named
/// by [`numeric`].
pub assume_specification[ char::is_numeric ](c: char) -> (b: bool)
    ensures
        b == numeric(c),
;

/// `String::push` appends one character to the end of the string.
pub assume_specification[ String::push ](s: &mut String, c: char)
    ensures
        final(s)@ == old(s)@.push(c),
;

/// The characters of a string, in order.
pub fn chars_of(s: &str) -> (v: Vec<char>)
    ensures
        v@ == s@,
{
    broadcast use vstd::string::group_string_axioms;

    let mut rest = s.chars();
    let mut v: Vec<char> = Vec::new();
    loop
        invariant
            rest.obeys_prophetic_iter_laws(),
            rest.decrease() is Some,
            v@ + rest.remaining() == s@,
        decreases rest.decrease()->0,
    {
        let ghost before = rest.remaining();
        match rest.next() {
            Some(c) => {
                assert(v@.push(c) + before.drop_first() =~= v@ + before);
                v.push(c);
            },
            None => {
                assert(v@ + before =~= v@);
                return v;
            },
        }
    }
}

/// The string made of the characters `v[from..to]`.
pub fn string_of(v: &Vec<char>, from: usize, to: usize) -> (s: String)
    requires
        from <= to <= v@.len(),
    ensures
        s@ == v@.subrange(from as int, to as int),
{
    let mut s = String::new();
    let mut i: usize = from;
    while i < to
        invariant
            from <= i <= to <= v@.len(),
            s@ == v@.subrange(from as int, i as int),
        decreases to - i,
    {
        s.push(v[i]);
        i += 1;
    }
    s
}

/// Whether a string holds exactly the characters of `literal`.
pub fn is_text(s: &String, literal: &str) -> (b: bool)
    ensures
        b == (s@ == literal@),
{
    let other = String::from_str(literal);
    *s == other
}

} // verus!

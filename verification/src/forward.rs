//! The lexer reads forward only: what it makes of a text from some
//! position on does not depend on what stands before that position.
use vstd::prelude::*;
use crate::lex::{
    brace_end, brace_end_bounds, empty_braces_read_as_nothing, group_end, group_text, inner_end,
    inner_text, is_digit, is_letter, lexed, next_token, next_token_advances, number_end,
    number_end_bounds, push_nonempty, raw_tokens, read_args, word_end, word_end_bounds, LexError,
};
use crate::token::TokenView;

verus! {

/// Whether `t` is the text `s` without its first `n` characters.
pub open spec fn is_suffix(s: Seq<char>, n: int, t: Seq<char>) -> bool {
    0 <= n <= s.len() && t == s.subrange(n, s.len() as int)
}

/// A piece of a suffix is the same piece of the whole text.
pub proof fn suffix_subrange(s: Seq<char>, n: int, t: Seq<char>, a: int, b: int)
    requires
        is_suffix(s, n, t),
        n <= a <= b <= s.len(),
    ensures
        s.subrange(a, b) == t.subrange(a - n, b - n),
{
    assert(s.subrange(a, b) =~= t.subrange(a - n, b - n));
}

/// A run of word characters ends at the same character in a suffix.
pub proof fn word_end_in_suffix(s: Seq<char>, n: int, t: Seq<char>, i: int)
    requires
        is_suffix(s, n, t),
        n <= i,
    ensures
        word_end(s, i) == word_end(t, i - n) + n,
    decreases s.len() - i,
{
    if i < s.len() {
        assert(s[i] == t[i - n]);
        word_end_in_suffix(s, n, t, i + 1);
    }
}

/// A run of number characters ends at the same character in a suffix.
pub proof fn number_end_in_suffix(s: Seq<char>, n: int, t: Seq<char>, i: int)
    requires
        is_suffix(s, n, t),
        n <= i,
    ensures
        number_end(s, i) == number_end(t, i - n) + n,
    decreases s.len() - i,
{
    if i < s.len() {
        assert(s[i] == t[i - n]);
        number_end_in_suffix(s, n, t, i + 1);
    }
}

/// A brace-balanced run ends at the same character in a suffix.
pub proof fn brace_end_in_suffix(
    s: Seq<char>,
    n: int,
    t: Seq<char>,
    i: int,
    depth: nat,
    closing: bool,
)
    requires
        is_suffix(s, n, t),
        n <= i,
    ensures
        brace_end(s, i, depth, closing) == brace_end(t, i - n, depth, closing) + n,
    decreases s.len() - i,
{
    if i < s.len() {
        assert(s[i] == t[i - n]);
        brace_end_in_suffix(s, n, t, i + 1, depth + 1, closing);
        brace_end_in_suffix(s, n, t, i + 1, depth, closing);
        if depth > 0 {
            brace_end_in_suffix(s, n, t, i + 1, (depth - 1) as nat, closing);
        }
    }
}

/// A brace group reads the same in a suffix.
pub proof fn group_in_suffix(s: Seq<char>, n: int, t: Seq<char>, i: int)
    requires
        is_suffix(s, n, t),
        n <= i <= s.len(),
    ensures
        group_end(s, i) == group_end(t, i - n) + n,
        group_text(s, i) == group_text(t, i - n),
        inner_end(s, i) == inner_end(t, i - n) + n,
        inner_text(s, i) == inner_text(t, i - n),
{
    if i < s.len() {
        assert(s[i] == t[i - n]);
    }
    brace_end_in_suffix(s, n, t, i, 0, true);
    brace_end_in_suffix(s, n, t, i, 0, false);
    brace_end_bounds(s, i, 0, true);
    brace_end_bounds(s, i, 0, false);
    suffix_subrange(s, n, t, i, group_end(s, i));
    suffix_subrange(s, n, t, i, inner_end(s, i));
}

/// Argument blocks read the same in a suffix.
pub proof fn read_args_in_suffix(
    s: Seq<char>,
    n: int,
    t: Seq<char>,
    i: int,
    optional: Seq<Seq<char>>,
    required: Seq<Seq<char>>,
)
    requires
        is_suffix(s, n, t),
        n <= i <= s.len(),
    ensures
        read_args(s, i, optional, required) == (
            read_args(t, i - n, optional, required).0,
            read_args(t, i - n, optional, required).1,
            read_args(t, i - n, optional, required).2 + n,
        ),
    decreases s.len() - i,
{
    if i < s.len() {
        assert(s[i] == t[i - n]);
        if s[i] == '[' {
            let e = word_end(s, i + 1);
            word_end_bounds(s, i + 1);
            word_end_in_suffix(s, n, t, i + 1);
            suffix_subrange(s, n, t, i + 1, e);
            read_args_in_suffix(
                s,
                n,
                t,
                e,
                push_nonempty(optional, s.subrange(i + 1, e)),
                required,
            );
        } else if s[i] == '{' {
            let e = inner_end(s, i + 1);
            brace_end_bounds(s, i + 1, 0, false);
            group_in_suffix(s, n, t, i + 1);
            read_args_in_suffix(
                s,
                n,
                t,
                e,
                optional,
                push_nonempty(required, inner_text(s, i + 1)),
            );
        } else if s[i] == ']' || s[i] == '}' {
            read_args_in_suffix(s, n, t, i + 1, optional, required);
        }
    }
}

/// A token with its end moved by `n` characters.
pub open spec fn moved(r: Result<(TokenView, int), LexError>, n: int) -> Result<
    (TokenView, int),
    LexError,
> {
    match r {
        Ok((token, end)) => Ok((token, end + n)),
        Err(e) => Err(e),
    }
}

/// A token reads the same in a suffix.
pub proof fn next_token_in_suffix(s: Seq<char>, n: int, t: Seq<char>, i: int)
    requires
        is_suffix(s, n, t),
        n <= i,
    ensures
        next_token(s, i) == moved(next_token(t, i - n), n),
    decreases s.len() - i,
{
    if i < s.len() {
        let c = s[i];
        assert(c == t[i - n]);
        if c == ' ' {
            next_token_in_suffix(s, n, t, i + 1);
        } else if c == '_' || c == '^' {
            if i + 1 < s.len() {
                assert(s[i + 1] == t[i + 1 - n]);
                group_in_suffix(s, n, t, i + 1);
            }
        } else if is_letter(c) {
            word_end_in_suffix(s, n, t, i + 1);
            word_end_bounds(s, i + 1);
            suffix_subrange(s, n, t, i, word_end(s, i + 1));
        } else if is_digit(c) {
            number_end_in_suffix(s, n, t, i + 1);
            number_end_bounds(s, i + 1);
            suffix_subrange(s, n, t, i, number_end(s, i + 1));
        } else if c == '{' {
            group_in_suffix(s, n, t, i);
        } else if c == '\\' {
            let e = word_end(s, i + 1);
            word_end_in_suffix(s, n, t, i + 1);
            word_end_bounds(s, i + 1);
            suffix_subrange(s, n, t, i + 1, e);
            read_args_in_suffix(s, n, t, e, Seq::empty(), Seq::empty());
        }
    }
}

/// The tokens read the same in a suffix.
pub proof fn raw_tokens_in_suffix(s: Seq<char>, n: int, t: Seq<char>, i: int)
    requires
        is_suffix(s, n, t),
        n <= i,
    ensures
        raw_tokens(s, i) == raw_tokens(t, i - n),
    decreases s.len() - i,
{
    next_token_in_suffix(s, n, t, i);
    match next_token(s, i) {
        Err(_) => {},
        Ok((token, end)) => {
            if !(token is Eos) {
                next_token_advances(s, i);
                raw_tokens_in_suffix(s, n, t, end);
            }
        },
    }
}

/// The lexer reads forward only: a text lexed from position `n` on gives
/// what the text behind position `n` gives when lexed from its start.
pub proof fn lexing_reads_forward(s: Seq<char>, n: int)
    requires
        0 <= n <= s.len(),
    ensures
        lexed(s, n) == lexed(s.subrange(n, s.len() as int), 0),
{
    raw_tokens_in_suffix(s, n, s.subrange(n, s.len() as int), n);
}

/// An empty brace group is invisible: a text lexes to the same tokens
/// with `{}` before it as without.
pub proof fn empty_braces_are_invisible(t: Seq<char>)
    ensures
        lexed(seq!['{', '}'] + t, 0) == lexed(t, 0),
{
    let s = seq!['{', '}'] + t;
    empty_braces_read_as_nothing(s, 0);
    lexing_reads_forward(s, 2);
    assert(s.subrange(2, s.len() as int) =~= t);
}

} // verus!

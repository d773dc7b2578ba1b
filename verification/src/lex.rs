//! The lexer: text to a normalized token sequence.
use vstd::prelude::*;
use crate::chars::{alphanumeric, chars_of, is_text, numeric, string_of};
pub use crate::token::{Proto, Token, TokenView};
use crate::token::{proto_view, proto_view_add, proto_view_push, texts, texts_push};

verus! {

/// Why a text could not be lexed.
#[derive(Debug, Clone, Copy, PartialEq, Eq, Structural)]
pub enum LexError {
    /// A character that starts no token.
    UnreadableChar(char),
    /// `\int`, `\sum` or `\prod` without both a subscript and a superscript
    /// directly behind it.
    MissingBounds,
    /// `\var` without a brace group that holds the binding.
    EmptyBinding,
    /// The text ran out where a token had to start.
    UnexpectedEnd,
}

/// A character of a word: a letter, a digit or a dot.
pub open spec fn word_char(c: char) -> bool {
    alphanumeric(c) || c == '.'
}

/// A character of a number: a digit or a dot.
pub open spec fn number_char(c: char) -> bool {
    numeric(c) || c == '.'
}

/// A character that may stand inside a brace group, braces aside.
pub open spec fn brace_body_char(c: char) -> bool {
    alphanumeric(c) || c == '_' || c == '^' || c == '.' || c == '+' || c == '-' || c == '*'
        || c == '/' || c == ' ' || c == '\\' || c == '='
}

/// Where the maximal run of word characters that starts at `i` ends.
pub open spec fn word_end(s: Seq<char>, i: int) -> int
    decreases s.len() - i,
{
    if 0 <= i < s.len() && word_char(s[i]) {
        word_end(s, i + 1)
    } else {
        i
    }
}

/// Where the maximal run of number characters that starts at `i` ends.
pub open spec fn number_end(s: Seq<char>, i: int) -> int
    decreases s.len() - i,
{
    if 0 <= i < s.len() && number_char(s[i]) {
        number_end(s, i + 1)
    } else {
        i
    }
}

/// Where a brace-balanced run that starts at `i` with `depth` braces open
/// ends: at the first `}` that closes nothing, at the first character that
/// may not stand in a brace group, or at the end of the text. A `closing`
/// run began on a `{` and also ends behind the `}` that closes that brace.
pub open spec fn brace_end(s: Seq<char>, i: int, depth: nat, closing: bool) -> int
    decreases s.len() - i,
{
    if 0 <= i < s.len() {
        if s[i] == '{' {
            brace_end(s, i + 1, depth + 1, closing)
        } else if s[i] == '}' {
            if depth == 0 {
                i
            } else if closing && depth == 1 {
                i + 1
            } else {
                brace_end(s, i + 1, (depth - 1) as nat, closing)
            }
        } else if brace_body_char(s[i]) {
            brace_end(s, i + 1, depth, closing)
        } else {
            i
        }
    } else {
        i
    }
}

/// A text without its outer brace pair, if it has one.
pub open spec fn strip_braces(t: Seq<char>) -> Seq<char> {
    if t.len() >= 2 && t.first() == '{' && t.last() == '}' {
        t.subrange(1, t.len() - 1)
    } else {
        t
    }
}

/// Where the brace group that opens at `i` ends, or, if no `{` stands at
/// `i`, where the text up to the next `}` that closes nothing ends.
pub open spec fn group_end(s: Seq<char>, i: int) -> int {
    brace_end(s, i, 0, 0 <= i < s.len() && s[i] == '{')
}

/// The content of the brace group that opens at `i`, or, if no `{` stands
/// at `i`, the text up to the next `}` that closes nothing.
pub open spec fn group_text(s: Seq<char>, i: int) -> Seq<char> {
    strip_braces(s.subrange(i, group_end(s, i)))
}

/// Where the text of an argument whose `{` was read just before `i` ends.
pub open spec fn inner_end(s: Seq<char>, i: int) -> int {
    brace_end(s, i, 0, false)
}

/// The text of an argument whose `{` was read just before `i`.
pub open spec fn inner_text(s: Seq<char>, i: int) -> Seq<char> {
    strip_braces(s.subrange(i, inner_end(s, i)))
}

/// The content of a subscript or superscript whose first character is at
/// `i`: a brace group, or that one character.
pub open spec fn script_text(s: Seq<char>, i: int) -> Seq<char> {
    if s[i] == '{' {
        group_text(s, i)
    } else {
        seq![s[i]]
    }
}

/// Where the content of a subscript or superscript that starts at `i` ends.
pub open spec fn script_end(s: Seq<char>, i: int) -> int {
    if s[i] == '{' {
        group_end(s, i)
    } else {
        i + 1
    }
}

/// A run of word characters ends between its start and the end of the text.
pub proof fn word_end_bounds(s: Seq<char>, i: int)
    requires
        0 <= i <= s.len(),
    ensures
        i <= word_end(s, i) <= s.len(),
    decreases s.len() - i,
{
    if i < s.len() && word_char(s[i]) {
        word_end_bounds(s, i + 1);
    }
}

/// A run of number characters ends between its start and the end of the text.
pub proof fn number_end_bounds(s: Seq<char>, i: int)
    requires
        0 <= i <= s.len(),
    ensures
        i <= number_end(s, i) <= s.len(),
    decreases s.len() - i,
{
    if i < s.len() && number_char(s[i]) {
        number_end_bounds(s, i + 1);
    }
}

/// A brace-balanced run ends between its start and the end of the text.
pub proof fn brace_end_bounds(s: Seq<char>, i: int, depth: nat, closing: bool)
    requires
        0 <= i <= s.len(),
    ensures
        i <= brace_end(s, i, depth, closing) <= s.len(),
    decreases s.len() - i,
{
    if i < s.len() {
        if s[i] == '{' {
            brace_end_bounds(s, i + 1, depth + 1, closing);
        } else if s[i] == '}' {
            if depth > 0 && !(closing && depth == 1) {
                brace_end_bounds(s, i + 1, (depth - 1) as nat, closing);
            }
        } else if brace_body_char(s[i]) {
            brace_end_bounds(s, i + 1, depth, closing);
        }
    }
}

/// A name that only sizes a delimiter: it stands for nothing.
pub open spec fn is_ignored_name(name: Seq<char>) -> bool {
    name == "left"@ || name == "right"@
}

/// A name whose bounds are written as a subscript and a superscript.
pub open spec fn is_big_operator(name: Seq<char>) -> bool {
    name == "int"@ || name == "sum"@ || name == "prod"@
}

/// A list of texts with one more at its end, unless that one is empty.
pub open spec fn push_nonempty(list: Seq<Seq<char>>, t: Seq<char>) -> Seq<Seq<char>> {
    if t.len() == 0 {
        list
    } else {
        list.push(t)
    }
}

/// The argument blocks that stand at `i`, added to those read before: the
/// optional arguments, the required arguments, and where the blocks end.
pub open spec fn read_args(
    s: Seq<char>,
    i: int,
    optional: Seq<Seq<char>>,
    required: Seq<Seq<char>>,
) -> (Seq<Seq<char>>, Seq<Seq<char>>, int)
    decreases s.len() - i,
{
    if 0 <= i < s.len() {
        if s[i] == '[' {
            let e = word_end(s, i + 1);
            proof {
                word_end_bounds(s, i + 1);
            }
            read_args(s, e, push_nonempty(optional, s.subrange(i + 1, e)), required)
        } else if s[i] == '{' {
            let e = inner_end(s, i + 1);
            proof {
                brace_end_bounds(s, i + 1, 0, false);
            }
            read_args(s, e, optional, push_nonempty(required, inner_text(s, i + 1)))
        } else if s[i] == ']' || s[i] == '}' {
            read_args(s, i + 1, optional, required)
        } else {
            (optional, required, i)
        }
    } else {
        (optional, required, i)
    }
}

/// The token that a name at `i`, just behind a `\`, stands for, and where
/// it ends: an empty expression for a sizing hint, else a function with the
/// argument blocks that follow the name.
pub open spec fn function_token(s: Seq<char>, i: int) -> (TokenView, int) {
    let e = word_end(s, i);
    let name = s.subrange(i, e);
    if is_ignored_name(name) {
        (TokenView::Expression(Seq::empty()), e)
    } else {
        let (optional, required, end) = read_args(s, e, Seq::empty(), Seq::empty());
        (TokenView::Function(name, optional, required), end)
    }
}

/// An ASCII letter.
pub open spec fn is_letter(c: char) -> bool {
    ('a' <= c && c <= 'z') || ('A' <= c && c <= 'Z')
}

/// An ASCII digit.
pub open spec fn is_digit(c: char) -> bool {
    '0' <= c && c <= '9'
}

/// The token that starts at or behind `i`, blanks skipped, and where it
/// ends; or the reason why none can be read. A line break or a terminator
/// is the end of input. `= + - / * ( ) [ ] , .` are tokens of their own.
/// `_` and `^` take the brace group or the one character behind them. A
/// letter starts an expression of letters, digits and dots, a digit one of
/// digits and dots. `{` opens a brace group, whose content is an
/// expression; a `}` that closes none is a token of its own. `\` starts a
/// function, a sizing hint or a binding. No other character is read.
pub open spec fn next_token(s: Seq<char>, i: int) -> Result<(TokenView, int), LexError>
    decreases s.len() - i,
{
    if 0 <= i < s.len() {
        let c = s[i];
        if c == ' ' {
            next_token(s, i + 1)
        } else if c == '\0' || c == '\n' {
            Ok((TokenView::Eos, i + 1))
        } else if c == '=' {
            Ok((TokenView::Equal, i + 1))
        } else if c == '+' {
            Ok((TokenView::Add, i + 1))
        } else if c == '-' {
            Ok((TokenView::Sub, i + 1))
        } else if c == '/' {
            Ok((TokenView::Div, i + 1))
        } else if c == '*' {
            Ok((TokenView::Times, i + 1))
        } else if c == '(' {
            Ok((TokenView::ParL, i + 1))
        } else if c == ')' {
            Ok((TokenView::ParR, i + 1))
        } else if c == '[' {
            Ok((TokenView::SquareL, i + 1))
        } else if c == ']' {
            Ok((TokenView::SquareR, i + 1))
        } else if c == ',' {
            Ok((TokenView::Comma, i + 1))
        } else if c == '.' {
            Ok((TokenView::Dot, i + 1))
        } else if c == '_' {
            if i + 1 < s.len() {
                Ok((TokenView::Subscript(script_text(s, i + 1)), script_end(s, i + 1)))
            } else {
                Err(LexError::UnexpectedEnd)
            }
        } else if c == '^' {
            if i + 1 < s.len() {
                Ok((TokenView::Superscript(script_text(s, i + 1)), script_end(s, i + 1)))
            } else {
                Err(LexError::UnexpectedEnd)
            }
        } else if is_letter(c) {
            let e = word_end(s, i + 1);
            Ok((TokenView::Expression(s.subrange(i, e)), e))
        } else if is_digit(c) {
            let e = number_end(s, i + 1);
            Ok((TokenView::Expression(s.subrange(i, e)), e))
        } else if c == '{' {
            Ok((TokenView::Expression(group_text(s, i)), group_end(s, i)))
        } else if c == '}' {
            Ok((TokenView::BraceR, i + 1))
        } else if c == '\\' {
            let (t, end) = function_token(s, i + 1);
            match t {
                TokenView::Function(name, _, required) if name == "var"@ => {
                    if required.len() == 0 {
                        Err(LexError::EmptyBinding)
                    } else {
                        Ok((TokenView::Var(required[0]), end))
                    }
                },
                _ => Ok((t, end)),
            }
        } else {
            Err(LexError::UnreadableChar(c))
        }
    } else {
        Err(LexError::UnexpectedEnd)
    }
}

/// The argument blocks end between their start and the end of the text.
pub proof fn read_args_bounds(
    s: Seq<char>,
    i: int,
    optional: Seq<Seq<char>>,
    required: Seq<Seq<char>>,
)
    requires
        0 <= i <= s.len(),
    ensures
        i <= read_args(s, i, optional, required).2 <= s.len(),
    decreases s.len() - i,
{
    if i < s.len() {
        if s[i] == '[' {
            let e = word_end(s, i + 1);
            word_end_bounds(s, i + 1);
            read_args_bounds(s, e, push_nonempty(optional, s.subrange(i + 1, e)), required);
        } else if s[i] == '{' {
            let e = inner_end(s, i + 1);
            brace_end_bounds(s, i + 1, 0, false);
            read_args_bounds(s, e, optional, push_nonempty(required, inner_text(s, i + 1)));
        } else if s[i] == ']' || s[i] == '}' {
            read_args_bounds(s, i + 1, optional, required);
        }
    }
}

/// Every token takes at least one character and ends within the text.
pub proof fn next_token_advances(s: Seq<char>, i: int)
    ensures
        match next_token(s, i) {
            Ok((_, end)) => 0 <= i < end <= s.len(),
            Err(_) => true,
        },
    decreases s.len() - i,
{
    if 0 <= i < s.len() {
        let c = s[i];
        if c == ' ' {
            next_token_advances(s, i + 1);
        } else if c == '_' || c == '^' {
            if i + 1 < s.len() {
                brace_end_bounds(s, i + 2, 1, true);
            }
        } else if is_letter(c) {
            word_end_bounds(s, i + 1);
        } else if is_digit(c) {
            number_end_bounds(s, i + 1);
        } else if c == '{' {
            brace_end_bounds(s, i + 1, 1, true);
        } else if c == '\\' {
            word_end_bounds(s, i + 1);
            read_args_bounds(s, word_end(s, i + 1), Seq::empty(), Seq::empty());
        }
    }
}

/// The tokens from `i` up to the first line break or terminator, without
/// that one and without empty expressions.
pub open spec fn raw_tokens(s: Seq<char>, i: int) -> Result<Seq<TokenView>, LexError>
    decreases s.len() - i,
{
    match next_token(s, i) {
        Err(e) => Err(e),
        Ok((t, end)) => {
            if t is Eos {
                Ok(Seq::empty())
            } else {
                proof {
                    next_token_advances(s, i);
                }
                match raw_tokens(s, end) {
                    Err(e) => Err(e),
                    Ok(rest) => Ok(keep_token(t) + rest),
                }
            }
        },
    }
}

/// A token as a sequence of its own, or nothing for an empty expression.
pub open spec fn keep_token(t: TokenView) -> Seq<TokenView> {
    if t == TokenView::Expression(Seq::empty()) {
        Seq::empty()
    } else {
        seq![t]
    }
}

/// The bounds that two tokens give, whichever comes first: the subscript's
/// text, then the superscript's.
pub open spec fn bounds(a: TokenView, b: TokenView) -> Option<(Seq<char>, Seq<char>)> {
    match (a, b) {
        (TokenView::Subscript(sub), TokenView::Superscript(sup)) => Some((sub, sup)),
        (TokenView::Superscript(sup), TokenView::Subscript(sub)) => Some((sub, sup)),
        _ => None,
    }
}

/// The tokens of `p` from `k` on, without the bindings, each big operator
/// fused with the two bounds behind it.
pub open spec fn fused(p: Seq<TokenView>, k: int) -> Result<Seq<TokenView>, LexError>
    decreases p.len() - k,
{
    if 0 <= k < p.len() {
        match p[k] {
            TokenView::Function(name, _, _) if is_big_operator(name) => {
                if k + 2 < p.len() && bounds(p[k + 1], p[k + 2]) is Some {
                    let (sub, sup) = bounds(p[k + 1], p[k + 2])->0;
                    match fused(p, k + 3) {
                        Err(e) => Err(e),
                        Ok(rest) => Ok(
                            seq![TokenView::Function(name, seq![sub, sup], Seq::empty())] + rest,
                        ),
                    }
                } else {
                    Err(LexError::MissingBounds)
                }
            },
            TokenView::Var(_) => fused(p, k + 1),
            t => match fused(p, k + 1) {
                Err(e) => Err(e),
                Ok(rest) => Ok(seq![t] + rest),
            },
        }
    } else {
        Ok(Seq::empty())
    }
}

/// The bindings among the tokens of `p`, in their order.
pub open spec fn bindings(p: Seq<TokenView>) -> Seq<TokenView>
    decreases p.len(),
{
    if p.len() == 0 {
        Seq::empty()
    } else if p.last() is Var {
        bindings(p.drop_last()).push(p.last())
    } else {
        bindings(p.drop_last())
    }
}

/// The normal form of a raw token sequence: big operators fused with their
/// bounds, then the bindings in their order, then the end of input.
pub open spec fn normalized(p: Seq<TokenView>) -> Result<Seq<TokenView>, LexError> {
    match fused(p, 0) {
        Err(e) => Err(e),
        Ok(main) => Ok(main + bindings(p) + seq![TokenView::Eos]),
    }
}

/// The normalized token sequence of the text `s` read from `i`.
pub open spec fn lexed(s: Seq<char>, i: int) -> Result<Seq<TokenView>, LexError> {
    match raw_tokens(s, i) {
        Err(e) => Err(e),
        Ok(raw) => normalized(raw),
    }
}

fn is_word_char(c: char) -> (b: bool)
    ensures
        b == word_char(c),
{
    c.is_alphanumeric() || c == '.'
}

fn is_number_char(c: char) -> (b: bool)
    ensures
        b == number_char(c),
{
    c.is_numeric() || c == '.'
}

fn is_brace_body_char(c: char) -> (b: bool)
    ensures
        b == brace_body_char(c),
{
    c.is_alphanumeric() || c == '_' || c == '^' || c == '.' || c == '+' || c == '-' || c == '*'
        || c == '/' || c == ' ' || c == '\\' || c == '='
}

fn is_letter_char(c: char) -> (b: bool)
    ensures
        b == is_letter(c),
{
    ('a' <= c && c <= 'z') || ('A' <= c && c <= 'Z')
}

fn is_digit_char(c: char) -> (b: bool)
    ensures
        b == is_digit(c),
{
    '0' <= c && c <= '9'
}

fn is_ignored(name: &String) -> (b: bool)
    ensures
        b == is_ignored_name(name@),
{
    is_text(name, "left") || is_text(name, "right")
}

fn is_big(name: &String) -> (b: bool)
    ensures
        b == is_big_operator(name@),
{
    is_text(name, "int") || is_text(name, "sum") || is_text(name, "prod")
}

/// A result with `acc` put before the tokens it holds.
pub open spec fn prepended(acc: Seq<TokenView>, r: Result<Seq<TokenView>, LexError>) -> Result<
    Seq<TokenView>,
    LexError,
> {
    match r {
        Ok(rest) => Ok(acc + rest),
        Err(e) => Err(e),
    }
}

/// The bindings of a sequence with one more token at its end.
pub proof fn bindings_push(p: Seq<TokenView>, t: TokenView)
    ensures
        bindings(p.push(t)) == if t is Var {
            bindings(p).push(t)
        } else {
            bindings(p)
        },
{
    assert(p.push(t).drop_last() =~= p);
}

fn next_index(v: &Vec<char>, i: usize) -> (next: usize)
    requires
        i < v@.len(),
    ensures
        next == i + 1,
{
    if i < v.len() {
        i + 1
    } else {
        i
    }
}

/// A cursor over a text that ends in the terminator `'\0'`.
pub struct Lex {
    cursor: usize,
    input: Vec<char>,
}

impl Lex {
    /// The text under the cursor, terminator included.
    pub closed spec fn text(&self) -> Seq<char> {
        self.input@
    }

    /// How many characters have been read.
    pub closed spec fn position(&self) -> int {
        self.cursor as int
    }

    /// The cursor lies within the text or at its end.
    pub open spec fn wf(&self) -> bool {
        0 <= self.position() <= self.text().len()
    }

    /// A lexer at the start of `input`, with the terminator appended.
    pub fn new(input: String) -> (lex: Lex)
        ensures
            lex.wf(),
            lex.position() == 0,
            lex.text() == input@.push('\0'),
    {
        let mut v = chars_of(input.as_str());
        v.push('\0');
        Lex { cursor: 0, input: v }
    }

    /// Reads one character.
    pub fn read_char(&mut self) -> (c: char)
        requires
            old(self).wf(),
            old(self).position() < old(self).text().len(),
        ensures
            final(self).wf(),
            final(self).text() == old(self).text(),
            final(self).position() == old(self).position() + 1,
            c == old(self).text()[old(self).position()],
    {
        let c: char = self.input[self.cursor];
        self.cursor = next_index(&self.input, self.cursor);
        c
    }

    /// Steps back over the character read last.
    pub fn put_back(&mut self)
        requires
            old(self).wf(),
            old(self).position() > 0,
        ensures
            final(self).wf(),
            final(self).text() == old(self).text(),
            final(self).position() == old(self).position() - 1,
    {
        self.cursor -= 1;
    }

    fn word_stop(&self, from: usize) -> (end: usize)
        requires
            from <= self.text().len(),
        ensures
            end == word_end(self.text(), from as int),
            from <= end <= self.text().len(),
    {
        let n: usize = self.input.len();
        let mut end: usize = from;
        while end < n && is_word_char(self.input[end])
            invariant
                n == self.input@.len(),
                from <= end <= n,
                word_end(self.input@, from as int) == word_end(self.input@, end as int),
            decreases n - end,
        {
            end += 1;
        }
        end
    }

    fn number_stop(&self, from: usize) -> (end: usize)
        requires
            from <= self.text().len(),
        ensures
            end == number_end(self.text(), from as int),
            from <= end <= self.text().len(),
    {
        let n: usize = self.input.len();
        let mut end: usize = from;
        while end < n && is_number_char(self.input[end])
            invariant
                n == self.input@.len(),
                from <= end <= n,
                number_end(self.input@, from as int) == number_end(self.input@, end as int),
            decreases n - end,
        {
            end += 1;
        }
        end
    }

    /// Reads the maximal run of letters, digits and dots at the cursor.
    pub fn read_pure_string(&mut self) -> (word: String)
        requires
            old(self).wf(),
        ensures
            final(self).wf(),
            final(self).text() == old(self).text(),
            final(self).position() == word_end(old(self).text(), old(self).position()),
            old(self).position() <= final(self).position(),
            word@ == old(self).text().subrange(old(self).position(), final(self).position()),
    {
        let start: usize = self.cursor;
        let end: usize = self.word_stop(start);
        self.cursor = end;
        string_of(&self.input, start, end)
    }

    /// Reads the maximal run of digits and dots at the cursor.
    pub fn read_pure_number(&mut self) -> (number: String)
        requires
            old(self).wf(),
        ensures
            final(self).wf(),
            final(self).text() == old(self).text(),
            final(self).position() == number_end(old(self).text(), old(self).position()),
            old(self).position() <= final(self).position(),
            number@ == old(self).text().subrange(old(self).position(), final(self).position()),
    {
        let start: usize = self.cursor;
        let end: usize = self.number_stop(start);
        self.cursor = end;
        string_of(&self.input, start, end)
    }

    /// Moves the cursor to the end of the brace-balanced run that starts
    /// at it, and returns the run without its outer brace pair, if it has
    /// one.
    fn read_braced(&mut self, closing: bool) -> (content: String)
        requires
            old(self).wf(),
        ensures
            final(self).wf(),
            final(self).text() == old(self).text(),
            final(self).position() == brace_end(
                old(self).text(),
                old(self).position(),
                0,
                closing,
            ),
            old(self).position() <= final(self).position(),
            content@ == strip_braces(
                old(self).text().subrange(old(self).position(), final(self).position()),
            ),
    {
        let start: usize = self.cursor;
        let n: usize = self.input.len();
        let mut end: usize = start;
        let mut depth: usize = 0;
        let mut going: bool = true;
        while going
            invariant
                n == self.input@.len(),
                start <= end <= n,
                depth <= end - start,
                going ==> brace_end(self.input@, start as int, 0, closing) == brace_end(
                    self.input@,
                    end as int,
                    depth as nat,
                    closing,
                ),
                !going ==> brace_end(self.input@, start as int, 0, closing) == end,
            decreases n - end + if going { 1int } else { 0int },
        {
            if end >= n {
                going = false;
            } else {
                let c: char = self.input[end];
                if c == '{' {
                    depth += 1;
                    end += 1;
                } else if c == '}' {
                    if depth == 0 {
                        going = false;
                    } else if closing && depth == 1 {
                        end += 1;
                        going = false;
                    } else {
                        depth -= 1;
                        end += 1;
                    }
                } else if is_brace_body_char(c) {
                    end += 1;
                } else {
                    going = false;
                }
            }
        }
        self.cursor = end;
        if end - start >= 2 && self.input[start] == '{' && self.input[end - 1] == '}' {
            assert(self.input@.subrange(start as int, end as int).subrange(1, end - start - 1)
                =~= self.input@.subrange(start + 1, end - 1));
            string_of(&self.input, start + 1, end - 1)
        } else {
            string_of(&self.input, start, end)
        }
    }

    /// Reads the brace group that opens at the cursor, up to and with the
    /// `}` that closes it, and returns what stands between the two braces.
    /// Where no `{` stands at the cursor, reads up to the next `}` that
    /// closes nothing instead. Either way the run also ends before a
    /// character that may not stand in a brace group.
    pub fn read_until_brace_r(&mut self) -> (content: String)
        requires
            old(self).wf(),
        ensures
            final(self).wf(),
            final(self).text() == old(self).text(),
            final(self).position() == group_end(old(self).text(), old(self).position()),
            old(self).position() <= final(self).position(),
            content@ == group_text(old(self).text(), old(self).position()),
    {
        let closing: bool = self.cursor < self.input.len() && self.input[self.cursor] == '{';
        self.read_braced(closing)
    }

    /// Reads the content of a subscript or superscript: the brace group at
    /// the cursor, or else the one character there.
    pub fn read_subscript(&mut self) -> (content: String)
        requires
            old(self).wf(),
            old(self).position() < old(self).text().len(),
        ensures
            final(self).wf(),
            final(self).text() == old(self).text(),
            final(self).position() == script_end(old(self).text(), old(self).position()),
            content@ == script_text(old(self).text(), old(self).position()),
    {
        let c: char = self.input[self.cursor];
        if c == '{' {
            self.read_until_brace_r()
        } else {
            self.cursor = next_index(&self.input, self.cursor);
            let mut content = String::new();
            content.push(c);
            content
        }
    }

    /// Reads what follows a `\`: a name and the argument blocks behind it.
    /// The number of arguments is not checked here.
    pub fn read_function(&mut self) -> (token: Token)
        requires
            old(self).wf(),
        ensures
            final(self).wf(),
            final(self).text() == old(self).text(),
            token@ == function_token(old(self).text(), old(self).position()).0,
            final(self).position() == function_token(old(self).text(), old(self).position()).1,
    {
        let name: String = self.read_pure_string();
        if is_ignored(&name) {
            return Token::Expression(String::new());
        }
        let ghost first: int = self.cursor as int;
        let n: usize = self.input.len();
        let mut optional: Vec<String> = Vec::new();
        let mut required: Vec<String> = Vec::new();
        let mut going: bool = true;
        assert(texts(optional@) =~= Seq::empty());
        assert(texts(required@) =~= Seq::empty());
        while going
            invariant
                self.wf(),
                self.text() == old(self).text(),
                n == self.text().len(),
                read_args(self.text(), first, Seq::empty(), Seq::empty()) == read_args(
                    self.text(),
                    self.position(),
                    texts(optional@),
                    texts(required@),
                ),
                !going ==> read_args(self.text(), first, Seq::empty(), Seq::empty()) == (
                    texts(optional@),
                    texts(required@),
                    self.position(),
                ),
            decreases n - self.position() + if going { 1int } else { 0int },
        {
            if self.cursor >= n {
                going = false;
            } else {
                let c: char = self.input[self.cursor];
                if c == '[' {
                    self.cursor += 1;
                    let text: String = self.read_pure_string();
                    if !text.as_str().is_empty() {
                        proof {
                            texts_push(optional@, text);
                        }
                        optional.push(text);
                    }
                } else if c == '{' {
                    self.cursor += 1;
                    let text: String = self.read_braced(false);
                    if !text.as_str().is_empty() {
                        proof {
                            texts_push(required@, text);
                        }
                        required.push(text);
                    }
                } else if c == ']' || c == '}' {
                    self.cursor += 1;
                } else {
                    going = false;
                }
            }
        }
        Token::Function(name, optional, required)
    }

    /// Reads the next token, blanks skipped.
    pub fn next(&mut self) -> (r: Result<Token, LexError>)
        requires
            old(self).wf(),
        ensures
            final(self).wf(),
            final(self).text() == old(self).text(),
            match r {
                Ok(t) => next_token(old(self).text(), old(self).position()) == Ok::<
                    (TokenView, int),
                    LexError,
                >((t@, final(self).position())),
                Err(e) => next_token(old(self).text(), old(self).position()) == Err::<
                    (TokenView, int),
                    LexError,
                >(e),
            },
    {
        let n: usize = self.input.len();
        while self.cursor < n && self.input[self.cursor] == ' '
            invariant
                self.wf(),
                self.text() == old(self).text(),
                n == self.text().len(),
                next_token(old(self).text(), old(self).position()) == next_token(
                    self.text(),
                    self.position(),
                ),
            decreases n - self.position(),
        {
            self.cursor += 1;
        }
        if self.cursor >= n {
            return Err(LexError::UnexpectedEnd);
        }
        let start: usize = self.cursor;
        let c: char = self.read_char();
        if c == '\0' || c == '\n' {
            Ok(Token::Eos)
        } else if c == '=' {
            Ok(Token::Equal)
        } else if c == '+' {
            Ok(Token::Add)
        } else if c == '-' {
            Ok(Token::Sub)
        } else if c == '/' {
            Ok(Token::Div)
        } else if c == '*' {
            Ok(Token::Times)
        } else if c == '(' {
            Ok(Token::ParL)
        } else if c == ')' {
            Ok(Token::ParR)
        } else if c == '[' {
            Ok(Token::SquareL)
        } else if c == ']' {
            Ok(Token::SquareR)
        } else if c == ',' {
            Ok(Token::Comma)
        } else if c == '.' {
            Ok(Token::Dot)
        } else if c == '_' {
            if self.cursor < n {
                Ok(Token::Subscript(self.read_subscript()))
            } else {
                Err(LexError::UnexpectedEnd)
            }
        } else if c == '^' {
            if self.cursor < n {
                Ok(Token::Superscript(self.read_subscript()))
            } else {
                Err(LexError::UnexpectedEnd)
            }
        } else if is_letter_char(c) {
            let end: usize = self.word_stop(self.cursor);
            self.cursor = end;
            Ok(Token::Expression(string_of(&self.input, start, end)))
        } else if is_digit_char(c) {
            let end: usize = self.number_stop(self.cursor);
            self.cursor = end;
            Ok(Token::Expression(string_of(&self.input, start, end)))
        } else if c == '{' {
            self.put_back();
            Ok(Token::Expression(self.read_until_brace_r()))
        } else if c == '}' {
            Ok(Token::BraceR)
        } else if c == '\\' {
            let token: Token = self.read_function();
            match token {
                Token::Function(name, optional, required) => {
                    if is_text(&name, "var") {
                        if required.len() == 0 {
                            Err(LexError::EmptyBinding)
                        } else {
                            let mut required = required;
                            Ok(Token::Var(required.remove(0)))
                        }
                    } else {
                        Ok(Token::Function(name, optional, required))
                    }
                },
                other => Ok(other),
            }
        } else {
            Err(LexError::UnreadableChar(c))
        }
    }

    /// Normalizes a raw token sequence: fuses each `\int`, `\sum` and
    /// `\prod` with the subscript and superscript behind it, whichever
    /// comes first, moves the bindings to the end and closes the sequence
    /// with the end of input.
    pub fn post_process(proto: Proto) -> (r: Result<Proto, LexError>)
        ensures
            match r {
                Ok(q) => normalized(proto_view(proto@)) == Ok::<Seq<TokenView>, LexError>(
                    proto_view(q@),
                ),
                Err(e) => normalized(proto_view(proto@)) == Err::<Seq<TokenView>, LexError>(e),
            },
    {
        let ghost p = proto_view(proto@);
        let n: usize = proto.len();
        let mut out: Vec<Token> = Vec::new();
        let mut vars: Vec<Token> = Vec::new();
        let mut k: usize = 0;
        assert(proto_view(out@) + fused(p, 0)->Ok_0 =~= fused(p, 0)->Ok_0);
        assert(p.subrange(0, 0) =~= Seq::empty());
        assert(proto_view(vars@) =~= Seq::empty());
        while k < n
            invariant
                p == proto_view(proto@),
                n == proto@.len(),
                k <= n,
                fused(p, 0) == prepended(proto_view(out@), fused(p, k as int)),
                proto_view(vars@) == bindings(p.subrange(0, k as int)),
            decreases n - k,
        {
            let ghost acc = proto_view(out@);
            let ghost seen = p.subrange(0, k as int);
            proof {
                bindings_push(seen, p[k as int]);
                assert(seen.push(p[k as int]) =~= p.subrange(0, k + 1));
            }
            assert(p[k as int] == proto@[k as int]@);
            match &proto[k] {
                Token::Function(name, _, _) if is_big(name) => {
                    if n - k <= 2 {
                        return Err(LexError::MissingBounds);
                    }
                    let (sub, sup) = match (&proto[k + 1], &proto[k + 2]) {
                        (Token::Subscript(sub), Token::Superscript(sup)) => (
                            sub.clone(),
                            sup.clone(),
                        ),
                        (Token::Superscript(sup), Token::Subscript(sub)) => (
                            sub.clone(),
                            sup.clone(),
                        ),
                        _ => {
                            return Err(LexError::MissingBounds);
                        },
                    };
                    let mut bound_texts: Vec<String> = Vec::new();
                    proof {
                        assert(texts(bound_texts@) =~= Seq::empty());
                        texts_push(bound_texts@, sub);
                        texts_push(bound_texts@.push(sub), sup);
                    }
                    bound_texts.push(sub);
                    bound_texts.push(sup);
                    let no_texts: Vec<String> = Vec::new();
                    assert(texts(no_texts@) =~= Seq::empty());
                    let token = Token::Function(name.clone(), bound_texts, no_texts);
                    proof {
                        assert(p[k + 1] == proto@[k + 1]@);
                        assert(p[k + 2] == proto@[k + 2]@);
                        assert(bounds(p[k + 1], p[k + 2]) == Some((sub@, sup@)));
                        assert(texts(bound_texts@) =~= seq![sub@, sup@]);
                        assert(token@ == TokenView::Function(
                            name@,
                            seq![sub@, sup@],
                            Seq::empty(),
                        ));
                        assert(fused(p, k as int) == prepended(seq![token@], fused(p, k + 3)));
                        proto_view_push(out@, token);
                        let rest = fused(p, k + 3)->Ok_0;
                        assert(acc + (seq![token@] + rest) =~= acc.push(token@) + rest);
                        bindings_push(seen.push(p[k as int]), p[k + 1]);
                        bindings_push(seen.push(p[k as int]).push(p[k + 1]), p[k + 2]);
                        assert(seen.push(p[k as int]).push(p[k + 1]).push(p[k + 2]) =~= p.subrange(
                            0,
                            k + 3,
                        ));
                    }
                    out.push(token);
                    k += 3;
                },
                Token::Var(_) => {
                    let token = proto[k].duplicate();
                    proof {
                        assert(fused(p, k as int) == fused(p, k + 1));
                        proto_view_push(vars@, token);
                    }
                    vars.push(token);
                    k += 1;
                },
                _ => {
                    let token = proto[k].duplicate();
                    proof {
                        assert(fused(p, k as int) == prepended(seq![token@], fused(p, k + 1)));
                        proto_view_push(out@, token);
                        let rest = fused(p, k + 1)->Ok_0;
                        assert(acc + (seq![token@] + rest) =~= acc.push(token@) + rest);
                    }
                    out.push(token);
                    k += 1;
                },
            }
        }
        let ghost main = proto_view(out@);
        proof {
            assert(p.subrange(0, n as int) =~= p);
            assert(main + Seq::<TokenView>::empty() =~= main);
            assert(fused(p, 0) == Ok::<Seq<TokenView>, LexError>(main));
            proto_view_add(out@, vars@);
            proto_view_push(out@ + vars@, Token::Eos);
            assert((main + bindings(p)).push(TokenView::Eos) =~= main + bindings(p)
                + seq![TokenView::Eos]);
        }
        out.append(&mut vars);
        out.push(Token::Eos);
        assert(proto_view(out@) == main + bindings(p) + seq![TokenView::Eos]);
        Ok(out)
    }

    /// Lexes the text from the cursor up to the first line break or
    /// terminator into a normalized token sequence, or says why it cannot.
    pub fn try_parse(&mut self) -> (r: Result<Proto, LexError>)
        requires
            old(self).wf(),
        ensures
            final(self).wf(),
            final(self).text() == old(self).text(),
            match r {
                Ok(q) => lexed(old(self).text(), old(self).position()) == Ok::<
                    Seq<TokenView>,
                    LexError,
                >(proto_view(q@)),
                Err(e) => lexed(old(self).text(), old(self).position()) == Err::<
                    Seq<TokenView>,
                    LexError,
                >(e),
            },
    {
        let ghost first: int = self.cursor as int;
        let mut raw: Vec<Token> = Vec::new();
        let mut going: bool = true;
        assert(proto_view(raw@) + raw_tokens(self.text(), first)->Ok_0 =~= raw_tokens(
            self.text(),
            first,
        )->Ok_0);
        while going
            invariant
                self.wf(),
                self.text() == old(self).text(),
                first == old(self).position(),
                going ==> raw_tokens(self.text(), first) == prepended(
                    proto_view(raw@),
                    raw_tokens(self.text(), self.position()),
                ),
                !going ==> raw_tokens(self.text(), first) == Ok::<Seq<TokenView>, LexError>(
                    proto_view(raw@),
                ),
            decreases self.text().len() - self.position() + if going { 1int } else { 0int },
        {
            let ghost acc = proto_view(raw@);
            let ghost here = self.position();
            proof {
                next_token_advances(self.text(), here);
            }
            match self.next() {
                Err(e) => {
                    assert(raw_tokens(self.text(), here) == Err::<Seq<TokenView>, LexError>(e));
                    return Err(e);
                },
                Ok(token) => {
                    let ghost rest = raw_tokens(self.text(), self.position())->Ok_0;
                    match token {
                        Token::Eos => {
                            assert(acc + Seq::<TokenView>::empty() =~= acc);
                            going = false;
                        },
                        Token::Expression(text) => {
                            if text.as_str().is_empty() {
                                assert(text@ =~= Seq::empty());
                                assert(acc + (Seq::<TokenView>::empty() + rest) =~= acc + rest);
                            } else {
                                let token = Token::Expression(text);
                                proof {
                                    proto_view_push(raw@, token);
                                    assert(acc + (seq![token@] + rest) =~= acc.push(token@) + rest);
                                }
                                raw.push(token);
                            }
                        },
                        other => {
                            proof {
                                proto_view_push(raw@, other);
                                assert(acc + (seq![other@] + rest) =~= acc.push(other@) + rest);
                            }
                            raw.push(other);
                        },
                    }
                },
            }
        }
        Lex::post_process(raw)
    }

    /// Lexes the text from the cursor up to the first line break or
    /// terminator into a normalized token sequence.
    pub fn parse(&mut self) -> (proto: Proto)
        requires
            old(self).wf(),
            lexed(old(self).text(), old(self).position()) is Ok,
        ensures
            final(self).wf(),
            final(self).text() == old(self).text(),
            lexed(old(self).text(), old(self).position()) == Ok::<Seq<TokenView>, LexError>(
                proto_view(proto@),
            ),
    {
        self.try_parse().unwrap()
    }
}

/// An empty brace group reads as nothing: the tokens from a `{}` on are
/// those behind it.
pub proof fn empty_braces_read_as_nothing(s: Seq<char>, i: int)
    requires
        0 <= i,
        i + 1 < s.len(),
        s[i] == '{',
        s[i + 1] == '}',
    ensures
        raw_tokens(s, i) == raw_tokens(s, i + 2),
        lexed(s, i) == lexed(s, i + 2),
{
    assert(brace_end(s, i + 1, 1, true) == i + 2);
    assert(group_end(s, i) == i + 2);
    assert(s.subrange(i, i + 2).subrange(1, 1) =~= Seq::<char>::empty());
    assert(group_text(s, i) == Seq::<char>::empty());
    assert(next_token(s, i) == Ok::<(TokenView, int), LexError>(
        (TokenView::Expression(Seq::empty()), i + 2),
    ));
    match raw_tokens(s, i + 2) {
        Ok(rest) => {
            assert(Seq::<TokenView>::empty() + rest =~= rest);
        },
        Err(_) => {},
    }
}

/// What is fused from `j` on depends on the tokens from `j` on alone.
pub proof fn fused_reads_forward(p: Seq<TokenView>, q: Seq<TokenView>, j: int)
    requires
        0 <= j,
        p.len() == q.len(),
        forall|i: int| j <= i < p.len() ==> p[i] == q[i],
    ensures
        fused(p, j) == fused(q, j),
    decreases p.len() - j,
{
    if j < p.len() {
        match p[j] {
            TokenView::Function(name, _, _) if is_big_operator(name) => {
                if j + 2 < p.len() && bounds(p[j + 1], p[j + 2]) is Some {
                    fused_reads_forward(p, q, j + 3);
                }
            },
            _ => {
                fused_reads_forward(p, q, j + 1);
            },
        }
    }
}

/// Whether `p` and `q` are the same but for the order of the subscript
/// and the superscript behind the big operator at `k`.
pub open spec fn differ_in_bound_order(p: Seq<TokenView>, q: Seq<TokenView>, k: int) -> bool {
    &&& 0 <= k
    &&& k + 2 < p.len()
    &&& p.len() == q.len()
    &&& p[k] is Function
    &&& is_big_operator(p[k]->Function_0)
    &&& p[k + 1] is Subscript
    &&& p[k + 2] is Superscript
    &&& q[k + 1] == p[k + 2]
    &&& q[k + 2] == p[k + 1]
    &&& forall|i: int| 0 <= i < p.len() && i != k + 1 && i != k + 2 ==> p[i] == q[i]
}

/// Up to the big operator at `k`, fusing meets the same tokens in both
/// orders of its bounds, and behind it too.
pub proof fn fused_ignores_bound_order(p: Seq<TokenView>, q: Seq<TokenView>, k: int, j: int)
    requires
        differ_in_bound_order(p, q, k),
        0 <= j <= k,
    ensures
        fused(p, j) == fused(q, j),
    decreases k - j,
{
    if j == k {
        fused_reads_forward(p, q, k + 3);
    } else {
        assert(p[j] == q[j]);
        match p[j] {
            TokenView::Function(name, _, _) if is_big_operator(name) => {
                assert(p[j + 1] == q[j + 1]);
                if j + 2 < p.len() && bounds(p[j + 1], p[j + 2]) is Some {
                    assert(j + 2 != k && j + 1 != k);
                    assert(p[j + 2] == q[j + 2]);
                    fused_ignores_bound_order(p, q, k, j + 3);
                } else if j + 2 < p.len() {
                    if j + 2 == k + 1 {
                        assert(bounds(q[j + 1], q[j + 2]) is None);
                    } else {
                        assert(p[j + 2] == q[j + 2]);
                    }
                }
            },
            _ => {
                fused_ignores_bound_order(p, q, k, j + 1);
            },
        }
    }
}

/// Two sequences that hold the same bindings at the same places have the
/// same bindings.
pub proof fn bindings_read_bindings_only(p: Seq<TokenView>, q: Seq<TokenView>)
    requires
        p.len() == q.len(),
        forall|i: int| 0 <= i < p.len() && (p[i] is Var || q[i] is Var) ==> p[i] == q[i],
    ensures
        bindings(p) == bindings(q),
    decreases p.len(),
{
    if p.len() > 0 {
        assert(p.drop_last().len() == q.drop_last().len());
        assert forall|i: int|
            0 <= i < p.drop_last().len() && (p.drop_last()[i] is Var
                || q.drop_last()[i] is Var) implies p.drop_last()[i] == q.drop_last()[i] by {
            assert(p.drop_last()[i] == p[i]);
            assert(q.drop_last()[i] == q[i]);
        }
        bindings_read_bindings_only(p.drop_last(), q.drop_last());
        assert(p.last() == p[p.len() - 1]);
        assert(q.last() == q[q.len() - 1]);
    }
}

/// The order of the two bounds behind a big operator is irrelevant: with
/// the subscript first or the superscript first, the sequence has the
/// same normal form, in which the operator's optional arguments are the
/// subscript's text and then the superscript's.
pub proof fn bound_order_is_irrelevant(p: Seq<TokenView>, q: Seq<TokenView>, k: int)
    requires
        differ_in_bound_order(p, q, k),
    ensures
        normalized(p) == normalized(q),
        fused(p, k) is Ok ==> fused(p, k)->Ok_0[0] == TokenView::Function(
            p[k]->Function_0,
            seq![p[k + 1]->Subscript_0, p[k + 2]->Superscript_0],
            Seq::empty(),
        ),
{
    fused_ignores_bound_order(p, q, k, 0);
    bindings_read_bindings_only(p, q);
}

/// A token that may stand before the bindings of a normalized sequence:
/// no end of input, no binding and no empty expression.
pub open spec fn is_plain(t: TokenView) -> bool {
    !(t is Eos) && !(t is Var) && t != TokenView::Expression(Seq::empty())
}

/// The normal form of a token sequence: exactly one end of input, at the
/// end; the bindings directly before it; no empty expression.
pub open spec fn is_normal(p: Seq<TokenView>) -> bool {
    &&& p.len() >= 1
    &&& p.last() is Eos
    &&& forall|i: int|
        0 <= i < p.len() - 1 ==> !(#[trigger] p[i] is Eos) && p[i] != TokenView::Expression(
            Seq::empty(),
        )
    &&& forall|i: int, j: int|
        0 <= i < j < p.len() - 1 && #[trigger] p[i] is Var ==> #[trigger] p[j] is Var
}

/// The raw tokens hold no end of input and no empty expression.
pub proof fn raw_tokens_are_kept_tokens(s: Seq<char>, i: int)
    ensures
        raw_tokens(s, i) is Ok ==> forall|k: int|
            0 <= k < raw_tokens(s, i)->Ok_0.len() ==> {
                let t = #[trigger] raw_tokens(s, i)->Ok_0[k];
                !(t is Eos) && t != TokenView::Expression(Seq::empty())
            },
    decreases s.len() - i,
{
    match next_token(s, i) {
        Err(_) => {},
        Ok((t, end)) => {
            if !(t is Eos) {
                next_token_advances(s, i);
                raw_tokens_are_kept_tokens(s, end);
            }
        },
    }
}

/// Fusing keeps out the bindings and brings in no end of input and no
/// empty expression.
pub proof fn fused_tokens_are_plain(p: Seq<TokenView>, k: int)
    requires
        0 <= k,
        forall|i: int|
            0 <= i < p.len() ==> !(#[trigger] p[i] is Eos) && p[i] != TokenView::Expression(
                Seq::empty(),
            ),
    ensures
        fused(p, k) is Ok ==> forall|i: int|
            0 <= i < fused(p, k)->Ok_0.len() ==> is_plain(#[trigger] fused(p, k)->Ok_0[i]),
    decreases p.len() - k,
{
    if k < p.len() {
        match p[k] {
            TokenView::Function(name, _, _) if is_big_operator(name) => {
                if k + 2 < p.len() && bounds(p[k + 1], p[k + 2]) is Some {
                    fused_tokens_are_plain(p, k + 3);
                }
            },
            _ => {
                fused_tokens_are_plain(p, k + 1);
            },
        }
    }
}

/// The bindings of a sequence are bindings.
pub proof fn bindings_are_bindings(p: Seq<TokenView>)
    ensures
        forall|i: int| 0 <= i < bindings(p).len() ==> #[trigger] bindings(p)[i] is Var,
    decreases p.len(),
{
    if p.len() > 0 {
        bindings_are_bindings(p.drop_last());
    }
}

/// What the lexer returns is in normal form: it ends in the one end of
/// input, the bindings stand directly before that, and no expression is
/// empty.
pub proof fn lexed_is_normal(s: Seq<char>, i: int)
    ensures
        lexed(s, i) is Ok ==> is_normal(lexed(s, i)->Ok_0),
{
    if lexed(s, i) is Ok {
        let raw = raw_tokens(s, i)->Ok_0;
        raw_tokens_are_kept_tokens(s, i);
        fused_tokens_are_plain(raw, 0);
        bindings_are_bindings(raw);
        let main = fused(raw, 0)->Ok_0;
        let vars = bindings(raw);
        let p = main + vars + seq![TokenView::Eos];
        assert(lexed(s, i)->Ok_0 == p);
        assert forall|k: int| 0 <= k < p.len() - 1 implies !(#[trigger] p[k] is Eos) && p[k]
            != TokenView::Expression(Seq::empty()) by {
            if k < main.len() {
                assert(p[k] == main[k]);
            } else {
                assert(p[k] == vars[k - main.len()]);
            }
        }
        assert forall|a: int, b: int|
            0 <= a < b < p.len() - 1 && #[trigger] p[a] is Var implies #[trigger] p[b] is Var by {
            if a < main.len() {
                assert(p[a] == main[a]);
            }
            assert(p[b] == vars[b - main.len()]);
        }
    }
}

/// Every character of a run of word characters is a word character.
pub proof fn word_run_holds_word_chars(s: Seq<char>, i: int, k: int)
    requires
        0 <= i <= k < word_end(s, i),
    ensures
        k < s.len(),
        word_char(s[k]),
    decreases s.len() - i,
{
    if i < k {
        word_run_holds_word_chars(s, i + 1, k);
    }
}

/// A function's name is a bare word: letters, digits and dots alone.
pub proof fn function_names_are_words(s: Seq<char>, i: int)
    requires
        0 <= i <= s.len(),
    ensures
        match function_token(s, i).0 {
            TokenView::Function(name, _, _) => forall|k: int|
                0 <= k < name.len() ==> word_char(#[trigger] name[k]),
            _ => true,
        },
{
    let e = word_end(s, i);
    word_end_bounds(s, i);
    let name = s.subrange(i, e);
    assert forall|k: int| 0 <= k < name.len() implies word_char(#[trigger] name[k]) by {
        word_run_holds_word_chars(s, i, i + k);
    }
}

} // verus!

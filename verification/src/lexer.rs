//! The lexical scanner: character sequence in, token sequence out.
//!
//! The mathematical model is `lex`: `lex_step` gives the token produced at a
//! cursor position together with the cursor position after it, and `lex_from`
//! folds `lex_step` over the rest of the input. The executable `Lexer` is
//! proved to produce exactly `lex` of its input; it never rejects any input,
//! so its `Result` is always `Ok`.
use vstd::prelude::*;

use vstd::std_specs::iter::IteratorSpec;

use crate::error::LexerError;
use crate::text::chars_to_string;
use crate::text::str_chars;
use crate::token::Token;
use crate::token::TokenView;

verus! {

/// The Unicode white-space property, as `char::is_whitespace` decides it.
pub open spec fn is_space(c: char) -> bool {
    let u = c as u32;
    u == 0x09 || u == 0x0a || u == 0x0b || u == 0x0c || u == 0x0d || u == 0x20 || u == 0x85
        || u == 0xa0 || u == 0x1680 || (0x2000 <= u && u <= 0x200a) || u == 0x2028 || u == 0x2029
        || u == 0x202f || u == 0x205f || u == 0x3000
}

/// An ASCII decimal digit.
pub open spec fn is_digit(c: char) -> bool {
    0x30 <= c as u32 && c as u32 <= 0x39
}

/// White space that the scanner skips between tokens: everything white except
/// line terminators, which are tokens of their own.
pub open spec fn is_skippable_space(c: char) -> bool {
    is_space(c) && c != '\n' && c != '\r'
}

fn is_space_char(c: char) -> (r: bool)
    ensures
        r == is_space(c),
{
    let u = c as u32;
    u == 0x09 || u == 0x0a || u == 0x0b || u == 0x0c || u == 0x0d || u == 0x20 || u == 0x85
        || u == 0xa0 || u == 0x1680 || (0x2000 <= u && u <= 0x200a) || u == 0x2028 || u == 0x2029
        || u == 0x202f || u == 0x205f || u == 0x3000
}

fn is_digit_char(c: char) -> (r: bool)
    ensures
        r == is_digit(c),
{
    let u = c as u32;
    0x30 <= u && u <= 0x39
}

/// Length of the run of `ch` starting at `i`, counting at most `cap`.
pub open spec fn run_len(s: Seq<char>, i: int, ch: char, cap: int) -> int
    decreases cap,
{
    if cap <= 0 || i < 0 || i >= s.len() || s[i] != ch {
        0
    } else {
        1 + run_len(s, i + 1, ch, cap - 1)
    }
}

/// First position at or after `i` that does not hold an ASCII digit.
pub open spec fn digit_run_end(s: Seq<char>, i: int) -> int
    decreases s.len() - i,
{
    if 0 <= i && i < s.len() && is_digit(s[i]) {
        digit_run_end(s, i + 1)
    } else {
        i
    }
}

/// Numeric value of one digit; 0 for anything that is not a digit.
pub open spec fn digit_of(c: char) -> nat {
    if is_digit(c) {
        (c as u32 - 0x30) as nat
    } else {
        0
    }
}

/// Value of the decimal digits `s[i..j)`, most significant first.
pub open spec fn digits_val(s: Seq<char>, i: int, j: int) -> nat
    decreases j - i,
{
    if j <= i {
        0
    } else {
        digits_val(s, i, j - 1) * 10 + digit_of(s[j - 1])
    }
}

/// The payload of a `Number` token: the digit run's value, degraded to 0
/// when it does not fit in a `u32`.
pub open spec fn number_payload(s: Seq<char>, i: int, j: int) -> u32 {
    if digits_val(s, i, j) <= u32::MAX {
        digits_val(s, i, j) as u32
    } else {
        0
    }
}

/// Whether a `-` at the position before `j` is a list marker: it is one
/// exactly when `j` is past the end or holds a space, a tab or a line
/// terminator.
pub open spec fn hyphen_breaks(s: Seq<char>, j: int) -> bool {
    j >= s.len() || s[j] == ' ' || s[j] == '\t' || s[j] == '\n' || s[j] == '\r'
}

/// Whether a text run that started at `i` stops before consuming `s[j]`.
pub open spec fn text_stop(s: Seq<char>, i: int, j: int) -> bool {
    j >= s.len() || s[j] == '\n' || s[j] == '\r' || s[j] == '#' || s[j] == '*' || s[j] == '_'
        || s[j] == '[' || s[j] == ']' || s[j] == '(' || s[j] == ')' || (s[j] == '-'
        && hyphen_breaks(s, j + 1)) || (is_digit(s[j]) && j == i)
}

/// End of the text run that started at `i`, scanning from `j`.
pub open spec fn text_end(s: Seq<char>, i: int, j: int) -> int
    decreases s.len() - j,
{
    if j < 0 {
        j
    } else if text_stop(s, i, j) {
        j
    } else {
        text_end(s, i, j + 1)
    }
}

/// `t` with its trailing white space removed.
pub open spec fn trim_end_spec(t: Seq<char>) -> Seq<char>
    decreases t.len(),
{
    if t.len() > 0 && is_space(t[t.len() - 1]) {
        trim_end_spec(t.drop_last())
    } else {
        t
    }
}

/// First position at or after `i` that does not hold skippable white space.
pub open spec fn ws_end(s: Seq<char>, i: int) -> int
    decreases s.len() - i,
{
    if 0 <= i && i < s.len() && is_skippable_space(s[i]) {
        ws_end(s, i + 1)
    } else {
        i
    }
}

/// The end of a white-space run lies between its start and the input's end.
pub proof fn lemma_ws_end_bounds(s: Seq<char>, i: int)
    requires
        0 <= i <= s.len(),
    ensures
        i <= ws_end(s, i) <= s.len(),
    decreases s.len() - i,
{
    if i < s.len() && is_skippable_space(s[i]) {
        lemma_ws_end_bounds(s, i + 1);
    }
}

proof fn lemma_text_end_bounds(s: Seq<char>, i: int, j: int)
    requires
        0 <= j <= s.len(),
    ensures
        j <= text_end(s, i, j) <= s.len(),
    decreases s.len() - j,
{
    if !text_stop(s, i, j) {
        lemma_text_end_bounds(s, i, j + 1);
    }
}

/// The run length stays between zero and the cap, inside the input.
pub proof fn lemma_run_len_bounds(s: Seq<char>, i: int, ch: char, cap: int)
    requires
        0 <= i <= s.len(),
        0 <= cap,
    ensures
        0 <= run_len(s, i, ch, cap) <= cap,
        i + run_len(s, i, ch, cap) <= s.len(),
    decreases cap,
{
    if cap > 0 && i < s.len() && s[i] == ch {
        lemma_run_len_bounds(s, i + 1, ch, cap - 1);
    }
}

proof fn lemma_digit_run_end_bounds(s: Seq<char>, i: int)
    requires
        0 <= i <= s.len(),
    ensures
        i <= digit_run_end(s, i) <= s.len(),
    decreases s.len() - i,
{
    if i < s.len() && is_digit(s[i]) {
        lemma_digit_run_end_bounds(s, i + 1);
    }
}

/// The run length is exactly `n` when `n` characters of the run match and
/// the run is ended by the cap, the end of the input, or another character.
pub proof fn lemma_run_len_exact(s: Seq<char>, i: int, ch: char, cap: int, n: int)
    requires
        0 <= i,
        0 <= n <= cap,
        i + n <= s.len(),
        forall|k: int| i <= k < i + n ==> s[k] == ch,
        n == cap || i + n == s.len() || s[i + n] != ch,
    ensures
        run_len(s, i, ch, cap) == n,
    decreases n,
{
    if n > 0 {
        lemma_run_len_exact(s, i + 1, ch, cap - 1, n - 1);
    }
}

proof fn lemma_digit_run_end_exact(s: Seq<char>, i: int, j: int)
    requires
        0 <= i <= j <= s.len(),
        forall|k: int| i <= k < j ==> is_digit(s[k]),
        j == s.len() || !is_digit(s[j]),
    ensures
        digit_run_end(s, i) == j,
    decreases j - i,
{
    if i < j {
        lemma_digit_run_end_exact(s, i + 1, j);
    }
}

/// One step of the scanner at cursor `i`: the token read and the cursor
/// position after it. At or past the end of the input the step yields `Eof`
/// without moving.
pub open spec fn lex_step(s: Seq<char>, i: int) -> (TokenView, int)
    decreases s.len() - i,
    via lex_step_decreases
{
    if i < 0 || i >= s.len() {
        (TokenView::Eof, i)
    } else {
        let c = s[i];
        if c == '\n' {
            (TokenView::Newline, i + 1)
        } else if c == '\r' {
            (TokenView::Newline, if i + 1 < s.len() && s[i + 1] == '\n' {
                i + 2
            } else {
                i + 1
            })
        } else if c == '#' {
            (TokenView::Hash(run_len(s, i, '#', 6) as u8), i + run_len(s, i, '#', 6))
        } else if c == '*' {
            (TokenView::Asterisk(run_len(s, i, '*', 3) as u8), i + run_len(s, i, '*', 3))
        } else if c == '_' {
            (TokenView::Underscore(run_len(s, i, '_', 3) as u8), i + run_len(s, i, '_', 3))
        } else if c == '[' {
            (TokenView::LeftBracket, i + 1)
        } else if c == ']' {
            (TokenView::RightBracket, i + 1)
        } else if c == '(' {
            (TokenView::LeftParen, i + 1)
        } else if c == ')' {
            (TokenView::RightParen, i + 1)
        } else if c == '-' && hyphen_breaks(s, i + 1) {
            (TokenView::Hyphen, i + 1)
        } else if c == '.' {
            (TokenView::Dot, i + 1)
        } else if is_digit(c) {
            (TokenView::Number(number_payload(s, i, digit_run_end(s, i))), digit_run_end(s, i))
        } else if is_space(c) {
            lex_step(s, ws_end(s, i))
        } else {
            (TokenView::Text(trim_end_spec(s.subrange(i, text_end(s, i, i)))), text_end(s, i, i))
        }
    }
}

#[via_fn]
proof fn lex_step_decreases(s: Seq<char>, i: int) {
    if 0 <= i && i < s.len() {
        if is_skippable_space(s[i]) {
            lemma_ws_end_bounds(s, i + 1);
        }
    }
}

/// Bounds of one scanner step: the cursor never moves backwards or past the
/// end, and it strictly advances unless the step yields `Eof`.
pub proof fn lemma_lex_step_bounds(s: Seq<char>, i: int)
    requires
        0 <= i <= s.len(),
    ensures
        i <= lex_step(s, i).1 <= s.len(),
        !(lex_step(s, i).0 is Eof) ==> lex_step(s, i).1 > i,
    decreases s.len() - i,
{
    if i < s.len() {
        let c = s[i];
        if c == '\n' || c == '\r' {
        } else if c == '#' {
            lemma_run_len_bounds(s, i + 1, '#', 5);
        } else if c == '*' {
            lemma_run_len_bounds(s, i + 1, '*', 2);
        } else if c == '_' {
            lemma_run_len_bounds(s, i + 1, '_', 2);
        } else if c == '[' || c == ']' || c == '(' || c == ')' || (c == '-' && hyphen_breaks(
            s,
            i + 1,
        )) || c == '.' {
        } else if is_digit(c) {
            lemma_digit_run_end_bounds(s, i + 1);
        } else if is_space(c) {
            lemma_ws_end_bounds(s, i + 1);
            lemma_lex_step_bounds(s, ws_end(s, i));
        } else {
            lemma_text_end_bounds(s, i, i + 1);
        }
    }
}

/// The token sequence produced from cursor `i` to the end of the input,
/// closed by exactly one `Eof`.
pub open spec fn lex_from(s: Seq<char>, i: int) -> Seq<TokenView>
    decreases s.len() - i,
    via lex_from_decreases
{
    if i < 0 || i >= s.len() {
        seq![TokenView::Eof]
    } else {
        let step = lex_step(s, i);
        if step.0 is Eof {
            seq![TokenView::Eof]
        } else {
            seq![step.0] + lex_from(s, step.1)
        }
    }
}

#[via_fn]
proof fn lex_from_decreases(s: Seq<char>, i: int) {
    if 0 <= i && i < s.len() {
        lemma_lex_step_bounds(s, i);
    }
}

/// The whole token sequence of `s`: what `tokenize` returns.
pub open spec fn lex(s: Seq<char>) -> Seq<TokenView> {
    lex_from(s, 0)
}

/// 1-based line number of the cursor after consuming `s[..i]`.
pub open spec fn line_at(s: Seq<char>, i: int) -> int
    decreases i,
{
    if i <= 0 {
        1
    } else if 0 <= i - 1 && i - 1 < s.len() && s[i - 1] == '\n' {
        line_at(s, i - 1) + 1
    } else {
        line_at(s, i - 1)
    }
}

/// 1-based column number of the cursor after consuming `s[..i]`.
pub open spec fn col_at(s: Seq<char>, i: int) -> int
    decreases i,
{
    if i <= 0 {
        1
    } else if 0 <= i - 1 && i - 1 < s.len() && s[i - 1] == '\n' {
        1
    } else {
        col_at(s, i - 1) + 1
    }
}

proof fn lemma_line_col_bounds(s: Seq<char>, i: int)
    requires
        0 <= i,
    ensures
        1 <= line_at(s, i) <= 1 + i,
        1 <= col_at(s, i) <= 1 + i,
    decreases i,
{
    if i > 0 {
        lemma_line_col_bounds(s, i - 1);
    }
}

/// The scanner: a cursor over the characters of the input, with 1-based line
/// and column counters for diagnostics.
pub struct Lexer {
    chars: Vec<char>,
    pos: usize,
    line: usize,
    column: usize,
}

impl Lexer {
    /// The characters the scanner was built over.
    pub closed spec fn input(&self) -> Seq<char> {
        self.chars@
    }

    /// The current cursor position.
    pub closed spec fn cursor(&self) -> int {
        self.pos as int
    }

    /// Well-formedness: the cursor is inside the input and the line and
    /// column counters agree with the consumed prefix.
    pub closed spec fn wf(&self) -> bool {
        &&& self.pos <= self.chars.len()
        &&& self.chars.len() < usize::MAX
        &&& self.line == line_at(self.chars@, self.pos as int)
        &&& self.column == col_at(self.chars@, self.pos as int)
    }

    /// A scanner over `input` with the cursor at the start.
    pub fn new(input: &str) -> (l: Lexer)
        requires
            input@.len() < usize::MAX,
        ensures
            l.wf(),
            l.input() == input@,
            l.cursor() == 0,
    {
        Lexer { chars: str_chars(input), pos: 0, line: 1, column: 1 }
    }

    fn peek_char(&self) -> (r: Option<char>)
        ensures
            r == (if self.cursor() < self.input().len() {
                Some(self.input()[self.cursor()])
            } else {
                None::<char>
            }),
    {
        if self.pos < self.chars.len() {
            Some(self.chars[self.pos])
        } else {
            None
        }
    }

    fn advance(&mut self)
        requires
            old(self).wf(),
            old(self).cursor() < old(self).input().len(),
        ensures
            final(self).wf(),
            final(self).input() == old(self).input(),
            final(self).cursor() == old(self).cursor() + 1,
    {
        proof {
            lemma_line_col_bounds(self.chars@, self.pos as int);
        }
        let c = self.chars[self.pos];
        if c == '\n' {
            self.line = self.line + 1;
            self.column = 1;
        } else {
            self.column = self.column + 1;
        }
        self.pos = self.pos + 1;
    }

    fn read_run(&mut self, ch: char, cap: u8) -> (n: u8)
        requires
            old(self).wf(),
            old(self).cursor() < old(self).input().len(),
            old(self).input()[old(self).cursor()] == ch,
            cap > 0,
        ensures
            final(self).wf(),
            final(self).input() == old(self).input(),
            n as int == run_len(old(self).input(), old(self).cursor(), ch, cap as int),
            final(self).cursor() == old(self).cursor() + n,
    {
        let ghost s = self.chars@;
        let ghost i0 = self.pos as int;
        let mut count: u8 = 0;
        while self.pos < self.chars.len() && self.chars[self.pos] == ch && count < cap
            invariant
                self.wf(),
                self.chars@ == s,
                count <= cap,
                self.pos as int == i0 + count,
                i0 + count <= s.len(),
                forall|k: int| i0 <= k < i0 + count ==> s[k] == ch,
            decreases cap - count,
        {
            self.advance();
            count = count + 1;
        }
        proof {
            lemma_run_len_exact(s, i0, ch, cap as int, count as int);
        }
        count
    }

    fn read_hashes(&mut self) -> (t: Token)
        requires
            old(self).wf(),
            old(self).cursor() < old(self).input().len(),
            old(self).input()[old(self).cursor()] == '#',
        ensures
            final(self).wf(),
            final(self).input() == old(self).input(),
            t@ == TokenView::Hash(run_len(old(self).input(), old(self).cursor(), '#', 6) as u8),
            final(self).cursor() == old(self).cursor() + run_len(
                old(self).input(),
                old(self).cursor(),
                '#',
                6,
            ),
    {
        Token::Hash(self.read_run('#', 6))
    }

    fn read_asterisks(&mut self) -> (t: Token)
        requires
            old(self).wf(),
            old(self).cursor() < old(self).input().len(),
            old(self).input()[old(self).cursor()] == '*',
        ensures
            final(self).wf(),
            final(self).input() == old(self).input(),
            t@ == TokenView::Asterisk(run_len(old(self).input(), old(self).cursor(), '*', 3) as u8),
            final(self).cursor() == old(self).cursor() + run_len(
                old(self).input(),
                old(self).cursor(),
                '*',
                3,
            ),
    {
        Token::Asterisk(self.read_run('*', 3))
    }

    fn read_underscores(&mut self) -> (t: Token)
        requires
            old(self).wf(),
            old(self).cursor() < old(self).input().len(),
            old(self).input()[old(self).cursor()] == '_',
        ensures
            final(self).wf(),
            final(self).input() == old(self).input(),
            t@ == TokenView::Underscore(
                run_len(old(self).input(), old(self).cursor(), '_', 3) as u8,
            ),
            final(self).cursor() == old(self).cursor() + run_len(
                old(self).input(),
                old(self).cursor(),
                '_',
                3,
            ),
    {
        Token::Underscore(self.read_run('_', 3))
    }

    fn read_number(&mut self) -> (t: Token)
        requires
            old(self).wf(),
        ensures
            final(self).wf(),
            final(self).input() == old(self).input(),
            t@ == TokenView::Number(
                number_payload(
                    old(self).input(),
                    old(self).cursor(),
                    digit_run_end(old(self).input(), old(self).cursor()),
                ),
            ),
            final(self).cursor() == digit_run_end(old(self).input(), old(self).cursor()),
    {
        let ghost s = self.chars@;
        let ghost i0 = self.pos as int;
        let mut acc: u64 = 0;
        let mut over: bool = false;
        while self.pos < self.chars.len() && is_digit_char(self.chars[self.pos])
            invariant
                self.wf(),
                self.chars@ == s,
                i0 <= self.pos as int <= s.len(),
                forall|k: int| i0 <= k < self.pos as int ==> is_digit(s[k]),
                !over ==> acc as nat == digits_val(s, i0, self.pos as int) && acc <= u32::MAX
                    as u64,
                over ==> digits_val(s, i0, self.pos as int) > u32::MAX,
            decreases s.len() - self.pos,
        {
            let c = self.chars[self.pos];
            let d: u64 = ((c as u32) - 0x30) as u64;
            let ghost val = digits_val(s, i0, self.pos as int);
            if !over {
                let acc2 = acc * 10 + d;
                if acc2 > 0xffff_ffff {
                    over = true;
                } else {
                    acc = acc2;
                }
            } else {
                proof {
                    assert(val * 10 >= val) by {
                        assert(val * 10 == val * 9 + val);
                    }
                }
            }
            self.advance();
        }
        proof {
            lemma_digit_run_end_exact(s, i0, self.pos as int);
        }
        if over {
            Token::Number(0)
        } else {
            Token::Number(acc as u32)
        }
    }

    fn read_text(&mut self) -> (t: Token)
        requires
            old(self).wf(),
        ensures
            final(self).wf(),
            final(self).input() == old(self).input(),
            t@ == TokenView::Text(
                trim_end_spec(
                    old(self).input().subrange(
                        old(self).cursor(),
                        text_end(old(self).input(), old(self).cursor(), old(self).cursor()),
                    ),
                ),
            ),
            final(self).cursor() == text_end(
                old(self).input(),
                old(self).cursor(),
                old(self).cursor(),
            ),
    {
        let ghost s = self.chars@;
        let ghost i0 = self.pos as int;
        let mut acc: Vec<char> = Vec::new();
        loop
            invariant
                self.wf(),
                self.chars@ == s,
                0 <= i0 <= self.pos as int <= s.len(),
                acc@ == s.subrange(i0, self.pos as int),
                text_end(s, i0, i0) == text_end(s, i0, self.pos as int),
            ensures
                self.wf(),
                self.chars@ == s,
                acc@ == s.subrange(i0, self.pos as int),
                self.pos as int == text_end(s, i0, i0),
            decreases s.len() - self.pos,
        {
            if self.pos >= self.chars.len() {
                break ;
            }
            let c = self.chars[self.pos];
            if c == '\n' || c == '\r' || c == '#' || c == '*' || c == '_' || c == '[' || c == ']'
                || c == '(' || c == ')' {
                break ;
            }
            if c == '-' {
                let brk = if self.pos + 1 >= self.chars.len() {
                    true
                } else {
                    let nx = self.chars[self.pos + 1];
                    nx == ' ' || nx == '\t' || nx == '\n' || nx == '\r'
                };
                if brk {
                    break ;
                }
            } else if is_digit_char(c) && acc.len() == 0 {
                break ;
            }
            acc.push(c);
            self.advance();
            proof {
                assert(acc@ =~= s.subrange(i0, self.pos as int));
            }
        }
        let ghost full = acc@;
        let mut k: usize = acc.len();
        proof {
            assert(full.subrange(0, acc.len() as int) =~= full);
        }
        loop
            invariant
                k <= acc.len(),
                acc@ == full,
                trim_end_spec(full) == trim_end_spec(full.subrange(0, k as int)),
            ensures
                k <= acc.len(),
                acc@ == full,
                trim_end_spec(full) == full.subrange(0, k as int),
            decreases k,
        {
            if k == 0 {
                proof {
                    assert(full.subrange(0, 0) =~= Seq::<char>::empty());
                }
                break ;
            }
            if !is_space_char(acc[k - 1]) {
                break ;
            }
            proof {
                let t = full.subrange(0, k as int);
                assert(t[t.len() - 1] == full[k - 1]);
                assert(t.drop_last() =~= full.subrange(0, k as int - 1));
            }
            k = k - 1;
        }
        acc.truncate(k);
        Token::Text(chars_to_string(&acc))
    }

    fn skip_whitespace(&mut self)
        requires
            old(self).wf(),
        ensures
            final(self).wf(),
            final(self).input() == old(self).input(),
            final(self).cursor() == ws_end(old(self).input(), old(self).cursor()),
    {
        let ghost s = self.chars@;
        let ghost i0 = self.pos as int;
        loop
            invariant
                self.wf(),
                self.chars@ == s,
                i0 <= self.pos as int <= s.len(),
                ws_end(s, i0) == ws_end(s, self.pos as int),
            ensures
                self.wf(),
                self.chars@ == s,
                self.pos as int == ws_end(s, i0),
            decreases s.len() - self.pos,
        {
            if self.pos >= self.chars.len() {
                break ;
            }
            let c = self.chars[self.pos];
            if !(is_space_char(c) && c != '\n' && c != '\r') {
                break ;
            }
            self.advance();
        }
    }

    fn read_token(&mut self, ch: char) -> (r: Result<Token, LexerError>)
        requires
            old(self).wf(),
            old(self).cursor() < old(self).input().len(),
            old(self).input()[old(self).cursor()] == ch,
        ensures
            final(self).wf(),
            final(self).input() == old(self).input(),
            r matches Ok(t) && t@ == lex_step(old(self).input(), old(self).cursor()).0,
            final(self).cursor() == lex_step(old(self).input(), old(self).cursor()).1,
        decreases old(self).input().len() - old(self).cursor(),
    {
        let ghost s = self.chars@;
        let ghost i0 = self.pos as int;
        if ch == '\n' {
            self.advance();
            Ok(Token::Newline)
        } else if ch == '\r' {
            self.advance();
            if self.pos < self.chars.len() && self.chars[self.pos] == '\n' {
                self.advance();
            }
            Ok(Token::Newline)
        } else if ch == '#' {
            Ok(self.read_hashes())
        } else if ch == '*' {
            Ok(self.read_asterisks())
        } else if ch == '_' {
            Ok(self.read_underscores())
        } else if ch == '[' {
            self.advance();
            Ok(Token::LeftBracket)
        } else if ch == ']' {
            self.advance();
            Ok(Token::RightBracket)
        } else if ch == '(' {
            self.advance();
            Ok(Token::LeftParen)
        } else if ch == ')' {
            self.advance();
            Ok(Token::RightParen)
        } else if ch == '-' {
            let brk = if self.pos + 1 >= self.chars.len() {
                true
            } else {
                let nx = self.chars[self.pos + 1];
                nx == ' ' || nx == '\t' || nx == '\n' || nx == '\r'
            };
            if brk {
                self.advance();
                Ok(Token::Hyphen)
            } else {
                Ok(self.read_text())
            }
        } else if ch == '.' {
            self.advance();
            Ok(Token::Dot)
        } else if is_digit_char(ch) {
            Ok(self.read_number())
        } else if is_space_char(ch) {
            self.skip_whitespace();
            proof {
                lemma_ws_end_bounds(s, i0 + 1);
                assert(lex_step(s, i0) == lex_step(s, ws_end(s, i0)));
            }
            if self.pos < self.chars.len() {
                let c2 = self.chars[self.pos];
                self.read_token(c2)
            } else {
                Ok(Token::Eof)
            }
        } else {
            Ok(self.read_text())
        }
    }

    /// One scanner step: the next token, or `Eof` at the end of the input.
    ///
    /// The scanner never rejects any input, so the result is always
    /// `Ok(Some(token))`; the `Result` and `Option` wrappers are part of the
    /// interface for stability.
    pub fn next_token(&mut self) -> (r: Result<Option<Token>, LexerError>)
        requires
            old(self).wf(),
        ensures
            final(self).wf(),
            final(self).input() == old(self).input(),
            r matches Ok(opt) && opt matches Some(t) && t@ == lex_step(
                old(self).input(),
                old(self).cursor(),
            ).0,
            final(self).cursor() == lex_step(old(self).input(), old(self).cursor()).1,
    {
        match self.peek_char() {
            None => Ok(Some(Token::Eof)),
            Some(ch) => {
                match self.read_token(ch) {
                    Ok(t) => Ok(Some(t)),
                    Err(e) => Err(e),
                }
            },
        }
    }

    /// Scan the rest of the input into tokens, ending with exactly one `Eof`.
    ///
    /// Always succeeds: the scanner as specified rejects no input.
    pub fn tokenize(&mut self) -> (r: Result<Vec<Token>, LexerError>)
        requires
            old(self).wf(),
        ensures
            final(self).wf(),
            final(self).input() == old(self).input(),
            r matches Ok(v) && v.deep_view() == lex_from(old(self).input(), old(self).cursor()),
    {
        let ghost s = self.chars@;
        let ghost i0 = self.pos as int;
        let mut tokens: Vec<Token> = Vec::new();
        proof {
            lemma_line_col_bounds(s, self.pos as int);
        }
        loop
            invariant_except_break
                lex_from(s, i0) == tokens.deep_view() + lex_from(s, self.pos as int),
            invariant
                self.wf(),
                self.chars@ == s,
                0 <= i0 <= self.pos as int <= s.len(),
            ensures
                self.wf(),
                self.chars@ == s,
                tokens.deep_view() == lex_from(s, i0),
            decreases s.len() - self.pos + 1,
        {
            proof {
                lemma_lex_step_bounds(s, self.pos as int);
            }
            let ghost before = self.pos as int;
            let r = self.next_token();
            let token = match r {
                Ok(Some(t)) => t,
                _ => vstd::pervasive::unreached(),
            };
            let eof = match token {
                Token::Eof => true,
                _ => false,
            };
            tokens.push(token);
            if eof {
                proof {
                    assert(lex_from(s, before) =~= seq![TokenView::Eof]);
                    assert(tokens.deep_view() =~= lex_from(s, i0));
                }
                break ;
            }
            proof {
                assert(lex_from(s, before) == seq![token@] + lex_from(s, self.pos as int));
                assert(lex_from(s, i0) =~= tokens.deep_view() + lex_from(s, self.pos as int));
            }
        }
        Ok(tokens)
    }

    /// The current (line, column) pair, both 1-based.
    pub fn position(&self) -> (r: (usize, usize))
        requires
            self.wf(),
        ensures
            r.0 == line_at(self.input(), self.cursor()),
            r.1 == col_at(self.input(), self.cursor()),
    {
        (self.line, self.column)
    }
}

/// Scan `input` into its token sequence; the last token is always `Eof`.
///
/// Always succeeds: the scanner as specified rejects no input.
pub fn tokenize(input: &str) -> (r: Result<Vec<Token>, LexerError>)
    requires
        input@.len() < usize::MAX,
    ensures
        r matches Ok(v) && v.deep_view() == lex(input@),
{
    let mut lexer = Lexer::new(input);
    lexer.tokenize()
}

} // verus!

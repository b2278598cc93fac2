//! The scanner: one left-to-right pass over the source's characters,
//! consuming one token at a time under maximal-munch rules.
//!
//! Scanning continues past each lexical error; every diagnostic is kept,
//! in order, on the scanner, and the most recently encountered one is
//! returned as the call's failure value. The token sequence always ends
//! with a synthetic end-of-input token, even on error, and stays readable
//! on the scanner when the call fails.

use crate::error::ErrorView;
use crate::error::JialoxError;
use crate::literal::LitView;
use crate::literal::Literal;
use crate::rational::spec_norm;
use crate::rational::Rational;
use crate::token::token_carries_value;
use crate::token::Token;
use crate::token::TokenView;
use crate::token_type::TokenType;
use vstd::prelude::*;

verus! {

pub open spec fn is_digit_c(c: char) -> bool {
    48 <= c as u32 <= 57
}

pub open spec fn is_alpha_c(c: char) -> bool {
    (65 <= c as u32 <= 90) || (97 <= c as u32 <= 122) || c == '_'
}

pub open spec fn is_alnum_c(c: char) -> bool {
    is_alpha_c(c) || is_digit_c(c)
}

/// Numeric value of one decimal digit character.
pub open spec fn digit_val(c: char) -> nat {
    (c as u32 - 48) as nat
}

/// `10 ^ k`.
pub open spec fn pow10(k: nat) -> nat
    decreases k,
{
    if k == 0 {
        1
    } else {
        10 * pow10((k - 1) as nat)
    }
}

/// Value of the digit run `s[j .. e)`, most significant digit first.
pub open spec fn digits_val(s: Seq<char>, j: int, e: int) -> nat
    decreases e - j,
{
    if j < e {
        digits_val(s, j, e - 1) * 10 + digit_val(s[e - 1])
    } else {
        0
    }
}

/// First index at or after `j` that does not hold a digit.
pub open spec fn digits_end(s: Seq<char>, j: int) -> int
    decreases s.len() - j,
{
    if 0 <= j < s.len() && is_digit_c(s[j]) {
        digits_end(s, j + 1)
    } else {
        j
    }
}

/// End of a numeric literal starting at `j`: digits, then a fractional
/// part only when a `.` is followed by another digit.
pub open spec fn number_end(s: Seq<char>, j: int) -> int {
    let e = digits_end(s, j);
    if e + 1 < s.len() && s[e] == '.' && is_digit_c(s[e + 1]) {
        digits_end(s, e + 2)
    } else {
        e
    }
}

/// First index at or after `j` that does not continue an identifier.
pub open spec fn ident_end(s: Seq<char>, j: int) -> int
    decreases s.len() - j,
{
    if 0 <= j < s.len() && is_alnum_c(s[j]) {
        ident_end(s, j + 1)
    } else {
        j
    }
}

/// End of a `//` comment: the next newline, or the end of input.
pub open spec fn line_comment_end(s: Seq<char>, j: int) -> int
    decreases s.len() - j,
{
    if 0 <= j < s.len() && s[j] != '\n' {
        line_comment_end(s, j + 1)
    } else {
        j
    }
}

/// Scanning inside a string literal from `j`: whether a closing quote was
/// found, its index (or the end of input), and the line after embedded
/// newlines.
pub open spec fn string_scan(s: Seq<char>, j: int, line: int) -> (bool, int, int)
    decreases s.len() - j,
{
    if !(0 <= j < s.len()) {
        (false, j, line)
    } else if s[j] == '"' {
        (true, j, line)
    } else if s[j] == '\n' {
        string_scan(s, j + 1, line + 1)
    } else {
        string_scan(s, j + 1, line)
    }
}

/// Scanning inside a nestable block comment from `j` at nesting `depth`:
/// whether the comment was closed, the index after it (or the end of
/// input), and the line after embedded newlines.
pub open spec fn block_scan(s: Seq<char>, j: int, line: int, depth: int) -> (bool, int, int)
    decreases s.len() - j,
{
    if !(0 <= j < s.len()) {
        (false, j, line)
    } else if s[j] == '*' && j + 1 < s.len() && s[j + 1] == '/' {
        if depth == 1 {
            (true, j + 2, line)
        } else {
            block_scan(s, j + 2, line, depth - 1)
        }
    } else if s[j] == '/' && j + 1 < s.len() && s[j + 1] == '*' {
        block_scan(s, j + 2, line, depth + 1)
    } else if s[j] == '\n' {
        block_scan(s, j + 1, line + 1, depth)
    } else {
        block_scan(s, j + 1, line, depth)
    }
}

/// The keyword table: a reserved word's token kind, or `Identifier`.
pub open spec fn keyword_type(l: Seq<char>) -> TokenType {
    if l == "and"@ {
        TokenType::And
    } else if l == "class"@ {
        TokenType::Class
    } else if l == "else"@ {
        TokenType::Else
    } else if l == "false"@ {
        TokenType::False
    } else if l == "for"@ {
        TokenType::For
    } else if l == "func"@ {
        TokenType::Func
    } else if l == "if"@ {
        TokenType::If
    } else if l == "nil"@ {
        TokenType::Nil
    } else if l == "or"@ {
        TokenType::Or
    } else if l == "print"@ {
        TokenType::Print
    } else if l == "return"@ {
        TokenType::Return
    } else if l == "super"@ {
        TokenType::Super
    } else if l == "this"@ {
        TokenType::This
    } else if l == "true"@ {
        TokenType::True
    } else if l == "var"@ {
        TokenType::Var
    } else if l == "while"@ {
        TokenType::While
    } else {
        TokenType::Identifier
    }
}

/// The value attached to a `true`, `false` or `nil` keyword token.
pub open spec fn keyword_literal(tt: TokenType) -> Option<LitView> {
    match tt {
        TokenType::True => Some(LitView::BoolV(true)),
        TokenType::False => Some(LitView::BoolV(false)),
        TokenType::Nil => Some(LitView::NilV),
        _ => None,
    }
}

/// Signed numerator and denominator of the numeric literal `s[j .. e)`
/// (always non-negative; the `-` of a negative number is a separate
/// token). The fraction is exact: `ip.frac` over `10 ^ digits(frac)`.
pub open spec fn number_numer(s: Seq<char>, j: int) -> nat {
    let ie = digits_end(s, j);
    let e = number_end(s, j);
    if e == ie {
        digits_val(s, j, ie)
    } else {
        digits_val(s, j, ie) * pow10((e - ie - 1) as nat) + digits_val(s, ie + 1, e)
    }
}

pub open spec fn number_denom(s: Seq<char>, j: int) -> nat {
    let ie = digits_end(s, j);
    let e = number_end(s, j);
    if e == ie {
        1
    } else {
        pow10((e - ie - 1) as nat)
    }
}

/// Whether the numeric literal fits the number representation: at most
/// nine fractional digits, and a numerator that fits 64 bits.
pub open spec fn number_fits(s: Seq<char>, j: int) -> bool {
    let ie = digits_end(s, j);
    let e = number_end(s, j);
    e - ie - 1 <= 9 && number_numer(s, j) <= u64::MAX
}

pub open spec fn tok(tt: TokenType, lex: Seq<char>, lit: Option<LitView>, line: int) -> TokenView {
    TokenView { ttype: tt, lexeme: lex, literal: lit, line: line as nat }
}

pub open spec fn lex_err(line: int, msg: Seq<char>) -> ErrorView {
    ErrorView { token: None, line: line as nat, message: msg }
}

/// Outcome of consuming one token starting at index `i`: the next index,
/// the line after it, and the token or error it produced, if any.
pub struct ScanStep {
    pub next: int,
    pub line: int,
    pub token: Option<TokenView>,
    pub error: Option<ErrorView>,
}

pub open spec fn step_tok(next: int, line: int, t: TokenView) -> ScanStep {
    ScanStep { next, line, token: Some(t), error: None }
}

pub open spec fn step_skip(next: int, line: int) -> ScanStep {
    ScanStep { next, line, token: None, error: None }
}

pub open spec fn step_err(next: int, line: int, e: ErrorView) -> ScanStep {
    ScanStep { next, line, token: None, error: Some(e) }
}

/// A one- or two-character operator beginning with `c` at index `i`: the
/// two-character form when the next character is `=`.
pub open spec fn op_step(s: Seq<char>, i: int, line: int, one: TokenType, two: TokenType) -> ScanStep {
    if i + 1 < s.len() && s[i + 1] == '=' {
        step_tok(i + 2, line, tok(two, s.subrange(i, i + 2), None, line))
    } else {
        step_tok(i + 1, line, tok(one, s.subrange(i, i + 1), None, line))
    }
}

/// One step of the scanner at index `i` (meaningful for `0 <= i < len`):
/// maximal-munch consumption of whitespace, a comment, one token, or one
/// erroneous character.
pub open spec fn scan_step(s: Seq<char>, i: int, line: int) -> ScanStep {
    let c = s[i];
    if c == '(' {
        step_tok(i + 1, line, tok(TokenType::LeftParen, s.subrange(i, i + 1), None, line))
    } else if c == ')' {
        step_tok(i + 1, line, tok(TokenType::RightParen, s.subrange(i, i + 1), None, line))
    } else if c == '{' {
        step_tok(i + 1, line, tok(TokenType::LeftBrace, s.subrange(i, i + 1), None, line))
    } else if c == '}' {
        step_tok(i + 1, line, tok(TokenType::RightBrace, s.subrange(i, i + 1), None, line))
    } else if c == ',' {
        step_tok(i + 1, line, tok(TokenType::Comma, s.subrange(i, i + 1), None, line))
    } else if c == '.' {
        step_tok(i + 1, line, tok(TokenType::Dot, s.subrange(i, i + 1), None, line))
    } else if c == '-' {
        step_tok(i + 1, line, tok(TokenType::Minus, s.subrange(i, i + 1), None, line))
    } else if c == '+' {
        step_tok(i + 1, line, tok(TokenType::Plus, s.subrange(i, i + 1), None, line))
    } else if c == ';' {
        step_tok(i + 1, line, tok(TokenType::Semicolon, s.subrange(i, i + 1), None, line))
    } else if c == '*' {
        step_tok(i + 1, line, tok(TokenType::Star, s.subrange(i, i + 1), None, line))
    } else if c == '!' {
        op_step(s, i, line, TokenType::Bang, TokenType::BangEqual)
    } else if c == '=' {
        op_step(s, i, line, TokenType::Equal, TokenType::EqualEqual)
    } else if c == '<' {
        op_step(s, i, line, TokenType::Less, TokenType::LessEqual)
    } else if c == '>' {
        op_step(s, i, line, TokenType::Greater, TokenType::GreaterEqual)
    } else if c == '/' {
        if i + 1 < s.len() && s[i + 1] == '/' {
            step_skip(line_comment_end(s, i + 2), line)
        } else if i + 1 < s.len() && s[i + 1] == '*' {
            let (ok, next, line2) = block_scan(s, i + 2, line, 1);
            if ok {
                step_skip(next, line2)
            } else {
                step_err(next, line2, lex_err(line2, "Unterminated block comments"@))
            }
        } else {
            step_tok(i + 1, line, tok(TokenType::Slash, s.subrange(i, i + 1), None, line))
        }
    } else if c == ' ' || c == '\r' || c == '\t' {
        step_skip(i + 1, line)
    } else if c == '\n' {
        step_skip(i + 1, line + 1)
    } else if c == '"' {
        let (closed, q, line2) = string_scan(s, i + 1, line);
        if closed {
            step_tok(
                q + 1,
                line2,
                tok(
                    TokenType::Str,
                    s.subrange(i, q + 1),
                    Some(LitView::StrV(s.subrange(i + 1, q))),
                    line,
                ),
            )
        } else {
            step_err(q, line2, lex_err(line2, "Unterminated string."@))
        }
    } else if is_digit_c(c) {
        let e = number_end(s, i);
        if number_fits(s, i) {
            let q = spec_norm(number_numer(s, i) as int, number_denom(s, i) as int);
            step_tok(
                e,
                line,
                tok(
                    TokenType::Number,
                    s.subrange(i, e),
                    Some(LitView::NumV { n: q.num_int(), d: q.den_int() }),
                    line,
                ),
            )
        } else {
            step_err(e, line, lex_err(line, "Number literal too large"@))
        }
    } else if is_alpha_c(c) {
        let e = ident_end(s, i);
        let lex = s.subrange(i, e);
        let tt = keyword_type(lex);
        step_tok(e, line, tok(tt, lex, keyword_literal(tt), line))
    } else {
        step_err(i + 1, line, lex_err(line, "Unexpected character"@))
    }
}

/// The whole scan from index `i`: the tokens and every diagnostic, in
/// order, folded over `scan_step`, closed by the end-of-input token at
/// the final line.
pub open spec fn spec_scan(
    s: Seq<char>,
    i: int,
    line: int,
    toks: Seq<TokenView>,
    errs: Seq<ErrorView>,
) -> (Seq<TokenView>, Seq<ErrorView>)
    decreases s.len() - i,
{
    if 0 <= i < s.len() {
        let st = scan_step(s, i, line);
        if i < st.next <= s.len() {
            spec_scan(
                s,
                st.next,
                st.line,
                toks + (match st.token {
                    Some(t) => seq![t],
                    None => Seq::empty(),
                }),
                errs + (match st.error {
                    Some(e) => seq![e],
                    None => Seq::empty(),
                }),
            )
        } else {
            (toks, errs)
        }
    } else {
        (toks.push(tok(TokenType::Eof, Seq::empty(), None, line)), errs)
    }
}

/// Number of newline characters in `s[a .. b)`.
pub open spec fn newline_count(s: Seq<char>, a: int, b: int) -> nat
    decreases b - a,
{
    if a < b {
        newline_count(s, a, b - 1) + (if s[b - 1] == '\n' {
            1nat
        } else {
            0nat
        })
    } else {
        0
    }
}

pub proof fn lemma_newline_count_split(s: Seq<char>, a: int, b: int, c: int)
    requires
        a <= b <= c,
    ensures
        newline_count(s, a, c) == newline_count(s, a, b) + newline_count(s, b, c),
    decreases c - b,
{
    if b < c {
        lemma_newline_count_split(s, a, b, c - 1);
    }
}

proof fn lemma_no_newlines(s: Seq<char>, a: int, b: int)
    requires
        a <= b,
        forall|m: int| a <= m < b ==> s[m] != '\n',
    ensures
        newline_count(s, a, b) == 0,
    decreases b - a,
{
    if a < b {
        lemma_no_newlines(s, a, b - 1);
    }
}

/// The line counter after a string literal advances by exactly the
/// newlines it spans.
pub proof fn lemma_string_scan_line(s: Seq<char>, j: int, line: int)
    requires
        0 <= j <= s.len(),
    ensures
        ({
            let (closed, q, l2) = string_scan(s, j, line);
            l2 == line + newline_count(s, j, q)
        }),
    decreases s.len() - j,
{
    reveal_with_fuel(newline_count, 3);
    let (closed, q, l2) = string_scan(s, j, line);
    if 0 <= j < s.len() && s[j] != '"' {
        let line2 = if s[j] == '\n' {
            line + 1
        } else {
            line
        };
        lemma_string_scan_bounds(s, j + 1, line2);
        lemma_string_scan_line(s, j + 1, line2);
        lemma_newline_count_split(s, j, j + 1, q);
        assert(newline_count(s, j, j + 1) == (if s[j] == '\n' {
            1nat
        } else {
            0nat
        }));
    } else {
        assert(q == j);
        assert(newline_count(s, j, j) == 0);
    }
}

/// The line counter after a block comment advances by exactly the
/// newlines it spans.
pub proof fn lemma_block_scan_line(s: Seq<char>, j: int, line: int, depth: int)
    requires
        0 <= j <= s.len(),
    ensures
        ({
            let (ok, nx, l2) = block_scan(s, j, line, depth);
            l2 == line + newline_count(s, j, nx)
        }),
    decreases s.len() - j,
{
    reveal_with_fuel(newline_count, 3);
    let (ok, nx, l2) = block_scan(s, j, line, depth);
    if 0 <= j < s.len() {
        if s[j] == '*' && j + 1 < s.len() && s[j + 1] == '/' {
            assert(newline_count(s, j, j + 1) == 0);
            assert(newline_count(s, j, j + 2) == 0);
            if depth != 1 {
                lemma_block_scan_bounds(s, j + 2, line, depth - 1);
                lemma_block_scan_line(s, j + 2, line, depth - 1);
                lemma_newline_count_split(s, j, j + 2, nx);
            }
        } else if s[j] == '/' && j + 1 < s.len() && s[j + 1] == '*' {
            assert(newline_count(s, j, j + 1) == 0);
            assert(newline_count(s, j, j + 2) == 0);
            lemma_block_scan_bounds(s, j + 2, line, depth + 1);
            lemma_block_scan_line(s, j + 2, line, depth + 1);
            lemma_newline_count_split(s, j, j + 2, nx);
        } else if s[j] == '\n' {
            assert(newline_count(s, j, j + 1) == 1);
            lemma_block_scan_bounds(s, j + 1, line + 1, depth);
            lemma_block_scan_line(s, j + 1, line + 1, depth);
            lemma_newline_count_split(s, j, j + 1, nx);
        } else {
            assert(newline_count(s, j, j + 1) == 0);
            lemma_block_scan_bounds(s, j + 1, line, depth);
            lemma_block_scan_line(s, j + 1, line, depth);
            lemma_newline_count_split(s, j, j + 1, nx);
        }
    } else {
        assert(nx == j);
        assert(newline_count(s, j, j) == 0);
    }
}

/// A line comment spans no newline.
proof fn lemma_line_comment_line(s: Seq<char>, j: int)
    requires
        0 <= j <= s.len(),
    ensures
        newline_count(s, j, line_comment_end(s, j)) == 0,
    decreases s.len() - j,
{
    reveal_with_fuel(newline_count, 3);
    if 0 <= j < s.len() && s[j] != '\n' {
        lemma_line_comment_end_bounds(s, j + 1);
        lemma_line_comment_line(s, j + 1);
        assert(line_comment_end(s, j) == line_comment_end(s, j + 1));
        assert(newline_count(s, j, j + 1) == 0);
        lemma_newline_count_split(s, j, j + 1, line_comment_end(s, j));
    } else {
        assert(line_comment_end(s, j) == j);
        assert(newline_count(s, j, j) == 0);
    }
}

pub proof fn lemma_digits_end_bounds(s: Seq<char>, j: int)
    requires
        0 <= j <= s.len(),
    ensures
        j <= digits_end(s, j) <= s.len(),
        forall|m: int| j <= m < digits_end(s, j) ==> is_digit_c(#[trigger] s[m]),
    decreases s.len() - j,
{
    if j < s.len() && is_digit_c(s[j]) {
        lemma_digits_end_bounds(s, j + 1);
    }
}

pub proof fn lemma_ident_end_bounds(s: Seq<char>, j: int)
    requires
        0 <= j <= s.len(),
    ensures
        j <= ident_end(s, j) <= s.len(),
        forall|m: int| j <= m < ident_end(s, j) ==> is_alnum_c(#[trigger] s[m]),
    decreases s.len() - j,
{
    if j < s.len() && is_alnum_c(s[j]) {
        lemma_ident_end_bounds(s, j + 1);
    }
}

pub proof fn lemma_line_comment_end_bounds(s: Seq<char>, j: int)
    requires
        0 <= j <= s.len(),
    ensures
        j <= line_comment_end(s, j) <= s.len(),
    decreases s.len() - j,
{
    if j < s.len() && s[j] != '\n' {
        lemma_line_comment_end_bounds(s, j + 1);
    }
}

pub proof fn lemma_string_scan_bounds(s: Seq<char>, j: int, line: int)
    requires
        0 <= j <= s.len(),
    ensures
        ({
            let (closed, q, line2) = string_scan(s, j, line);
            j <= q <= s.len() && line2 >= line && (closed ==> q < s.len() && s[q] == '"')
        }),
    decreases s.len() - j,
{
    if 0 <= j < s.len() && s[j] != '"' {
        lemma_string_scan_bounds(s, j + 1, if s[j] == '\n' {
            line + 1
        } else {
            line
        });
    }
}

pub proof fn lemma_block_scan_bounds(s: Seq<char>, j: int, line: int, depth: int)
    requires
        0 <= j <= s.len(),
    ensures
        ({
            let (ok, next, line2) = block_scan(s, j, line, depth);
            j <= next <= s.len() && line2 >= line
        }),
    decreases s.len() - j,
{
    if 0 <= j < s.len() {
        if s[j] == '*' && j + 1 < s.len() && s[j + 1] == '/' {
            if depth != 1 {
                lemma_block_scan_bounds(s, j + 2, line, depth - 1);
            }
        } else if s[j] == '/' && j + 1 < s.len() && s[j + 1] == '*' {
            lemma_block_scan_bounds(s, j + 2, line, depth + 1);
        } else if s[j] == '\n' {
            lemma_block_scan_bounds(s, j + 1, line + 1, depth);
        } else {
            lemma_block_scan_bounds(s, j + 1, line, depth);
        }
    }
}

/// Scanning a source that is exactly one representable numeric literal
/// yields one `Number` token carrying the literal's exact value, followed
/// by the end-of-input token, and no error.
pub proof fn lemma_scan_numeric_literal(s: Seq<char>)
    requires
        s.len() >= 1,
        is_digit_c(s[0]),
        number_end(s, 0) == s.len(),
        number_fits(s, 0),
    ensures
        ({
            let q = spec_norm(number_numer(s, 0) as int, number_denom(s, 0) as int);
            spec_scan(s, 0, 1, Seq::empty(), Seq::empty()) == (
                seq![
                    tok(TokenType::Number, s, Some(LitView::NumV { n: q.num_int(), d: q.den_int() }), 1),
                    tok(TokenType::Eof, Seq::empty(), None, 1),
                ],
                Seq::<ErrorView>::empty(),
            )
        }),
{
    let q = spec_norm(number_numer(s, 0) as int, number_denom(s, 0) as int);
    let numtok = tok(
        TokenType::Number,
        s,
        Some(LitView::NumV { n: q.num_int(), d: q.den_int() }),
        1,
    );
    let st = scan_step(s, 0, 1);
    assert(s.subrange(0, s.len() as int) =~= s);
    assert(st == step_tok(s.len() as int, 1, numtok));
    assert(Seq::<TokenView>::empty() + seq![numtok] =~= seq![numtok]);
    assert(Seq::<ErrorView>::empty() + Seq::<ErrorView>::empty() =~= Seq::<ErrorView>::empty());
    assert(spec_scan(s, 0, 1, Seq::empty(), Seq::empty()) == spec_scan(
        s,
        s.len() as int,
        1,
        seq![numtok],
        Seq::empty(),
    ));
    assert(seq![numtok].push(tok(TokenType::Eof, Seq::empty(), None, 1)) =~= seq![
        numtok,
        tok(TokenType::Eof, Seq::empty(), None, 1),
    ]);
}

pub proof fn lemma_pow10_pos(k: nat)
    ensures
        pow10(k) >= 1,
    decreases k,
{
    if k > 0 {
        lemma_pow10_pos((k - 1) as nat);
    }
}

pub proof fn lemma_pow10_mono(a: nat, b: nat)
    requires
        a <= b,
    ensures
        pow10(a) <= pow10(b),
    decreases b,
{
    if a < b {
        lemma_pow10_mono(a, (b - 1) as nat);
    }
}

/// One scan step advances the cursor and advances the line counter by
/// exactly the newlines of the characters it consumed.
pub proof fn lemma_scan_step_line(s: Seq<char>, i: int, line: int)
    requires
        0 <= i < s.len(),
    ensures
        ({
            let st = scan_step(s, i, line);
            i < st.next <= s.len() && st.line == line + newline_count(s, i, st.next)
        }),
{
    reveal_with_fuel(newline_count, 3);
    let st = scan_step(s, i, line);
    let c = s[i];
    if c == '(' || c == ')' || c == '{' || c == '}' || c == ',' || c == '.' || c == '-' || c == '+'
        || c == ';' || c == '*' {
        assert(newline_count(s, i, i + 1) == 0);
    } else if c == '!' || c == '=' || c == '<' || c == '>' {
        assert(newline_count(s, i, i + 1) == 0);
        if i + 1 < s.len() && s[i + 1] == '=' {
            assert(newline_count(s, i, i + 2) == 0);
        }
    } else if c == '/' {
        if i + 1 < s.len() && s[i + 1] == '/' {
            lemma_line_comment_end_bounds(s, i + 2);
            lemma_line_comment_line(s, i + 2);
            assert(newline_count(s, i, i + 2) == 0);
            lemma_newline_count_split(s, i, i + 2, line_comment_end(s, i + 2));
        } else if i + 1 < s.len() && s[i + 1] == '*' {
            let (ok, nx, l2) = block_scan(s, i + 2, line, 1);
            lemma_block_scan_bounds(s, i + 2, line, 1);
            lemma_block_scan_line(s, i + 2, line, 1);
            assert(newline_count(s, i, i + 2) == 0);
            lemma_newline_count_split(s, i, i + 2, nx);
        } else {
            assert(newline_count(s, i, i + 1) == 0);
        }
    } else if c == ' ' || c == '\r' || c == '\t' {
        assert(newline_count(s, i, i + 1) == 0);
    } else if c == '\n' {
        assert(newline_count(s, i, i + 1) == 1);
    } else if c == '"' {
        let (closed, q, l2) = string_scan(s, i + 1, line);
        lemma_string_scan_bounds(s, i + 1, line);
        lemma_string_scan_line(s, i + 1, line);
        assert(newline_count(s, i, i + 1) == 0);
        lemma_newline_count_split(s, i, i + 1, q);
        if closed {
            assert(s[q] == '"');
            assert(newline_count(s, q, q + 1) == 0);
            lemma_newline_count_split(s, i, q, q + 1);
        }
    } else if is_digit_c(c) {
        let ie = digits_end(s, i);
        let e = number_end(s, i);
        lemma_digits_end_bounds(s, i);
        lemma_digits_end_bounds(s, i + 1);
        if ie + 1 < s.len() && s[ie] == '.' && is_digit_c(s[ie + 1]) {
            lemma_digits_end_bounds(s, ie + 2);
        }
        assert forall|m: int| i <= m < e implies s[m] != '\n' by {
            if m < ie {
                assert(is_digit_c(s[m]));
            } else if m == ie {
                assert(s[m] == '.');
            } else if m == ie + 1 {
                assert(is_digit_c(s[m]));
            } else {
                assert(is_digit_c(s[m]));
            }
        }
        lemma_no_newlines(s, i, e);
    } else if is_alpha_c(c) {
        let e = ident_end(s, i);
        lemma_ident_end_bounds(s, i);
        lemma_ident_end_bounds(s, i + 1);
        assert forall|m: int| i <= m < e implies s[m] != '\n' by {
            assert(is_alnum_c(s[m]));
        }
        lemma_no_newlines(s, i, e);
    } else {
        assert(newline_count(s, i, i + 1) == 0);
    }
}

/// The whole scan closes its token sequence with the end-of-input token,
/// whose line is the starting line plus the newlines of the remaining
/// source.
pub proof fn lemma_scan_lines(
    s: Seq<char>,
    i: int,
    line: int,
    toks: Seq<TokenView>,
    errs: Seq<ErrorView>,
)
    requires
        0 <= i <= s.len(),
    ensures
        ({
            let (tv, ev) = spec_scan(s, i, line, toks, errs);
            tv.len() >= 1 && tv.last() == tok(
                TokenType::Eof,
                Seq::empty(),
                None,
                line + newline_count(s, i, s.len() as int),
            )
        }),
    decreases s.len() - i,
{
    if 0 <= i < s.len() {
        lemma_scan_step_line(s, i, line);
        let st = scan_step(s, i, line);
        lemma_scan_lines(
            s,
            st.next,
            st.line,
            toks + (match st.token {
                Some(t) => seq![t],
                None => Seq::empty(),
            }),
            errs + (match st.error {
                Some(e) => seq![e],
                None => Seq::empty(),
            }),
        );
        lemma_newline_count_split(s, i, st.next, s.len() as int);
    } else {
        reveal_with_fuel(newline_count, 2);
        assert(newline_count(s, i, s.len() as int) == 0);
    }
}

/// Every scan ends with the end-of-input token at line 1 plus the number
/// of newline characters in the source.
pub proof fn lemma_scan_eof_line(s: Seq<char>)
    ensures
        ({
            let (tv, ev) = spec_scan(s, 0, 1, Seq::empty(), Seq::empty());
            tv.len() >= 1 && tv.last() == tok(
                TokenType::Eof,
                Seq::empty(),
                None,
                1 + newline_count(s, 0, s.len() as int) as int,
            )
        }),
{
    lemma_scan_lines(s, 0, 1, Seq::empty(), Seq::empty());
}

/// The scanner's mutable cursor state over one source text. Every
/// diagnostic met during the scan is kept, in order, in `errors`.
pub struct Scanner {
    pub source: String,
    pub tokens: Vec<Token>,
    pub errors: Vec<JialoxError>,
    pub start: usize,
    pub current: usize,
    pub line: usize,
}

impl Scanner {
    /// Cursor sanity: positions in range, and the line counter bounded by
    /// the characters consumed.
    pub open spec fn wf(&self) -> bool {
        self.start <= self.current <= self.source@.len() && 1 <= self.line <= self.current + 1
            && self.source@.len() < usize::MAX
    }

    /// Every token scanned so far is well formed, and literal-kind tokens
    /// carry their attached value.
    pub open spec fn tokens_ok(&self) -> bool {
        forall|k: int|
            0 <= k < self.tokens@.len() ==> (#[trigger] self.tokens@[k]).wf()
                && token_carries_value(self.tokens@[k]@)
    }

    pub fn new(source: String) -> (sc: Scanner)
        requires
            source@.len() < usize::MAX,
        ensures
            sc.source == source,
            sc.tokens@.len() == 0,
            sc.errors@.len() == 0,
            sc.start == 0,
            sc.current == 0,
            sc.line == 1,
            sc.wf(),
    {
        Scanner { source, tokens: Vec::new(), errors: Vec::new(), start: 0, current: 0, line: 1 }
    }

    fn is_at_end(&self) -> (r: bool)
        ensures
            r == (self.current >= self.source@.len()),
    {
        self.current >= self.source.as_str().unicode_len()
    }

    /// Consumes and returns the character under the cursor.
    fn advance(&mut self) -> (c: char)
        requires
            old(self).current < old(self).source@.len(),
            old(self).source@.len() < usize::MAX,
        ensures
            c == old(self).source@[old(self).current as int],
            *final (self) == (Scanner { current: (old(self).current + 1) as usize, ..*old(self) }),
    {
        let result = self.source.as_str().get_char(self.current);
        self.current = self.current + 1;
        result
    }

    /// The character under the cursor, if any.
    fn currentc(&self) -> (r: Option<char>)
        ensures
            r == if self.current < self.source@.len() {
                Some(self.source@[self.current as int])
            } else {
                None::<char>
            },
    {
        if self.current < self.source.as_str().unicode_len() {
            Some(self.source.as_str().get_char(self.current))
        } else {
            None
        }
    }

    /// The character after the cursor, if any.
    fn next_currentc(&self) -> (r: Option<char>)
        requires
            self.source@.len() < usize::MAX,
        ensures
            r == if self.current + 1 < self.source@.len() {
                Some(self.source@[self.current + 1])
            } else {
                None::<char>
            },
    {
        if self.current < usize::MAX && self.current + 1 < self.source.as_str().unicode_len() {
            Some(self.source.as_str().get_char(self.current + 1))
        } else {
            None
        }
    }

    /// Consumes the next character when it is `expected`.
    fn next_match(&mut self, expected: char) -> (r: bool)
        requires
            old(self).current <= old(self).source@.len(),
            old(self).source@.len() < usize::MAX,
        ensures
            r == (old(self).current < old(self).source@.len() && old(self).source@[old(
                self,
            ).current as int] == expected),
            final (self).current == if r {
                old(self).current + 1
            } else {
                old(self).current as int
            },
            final (self).source@ == old(self).source@,
            final (self).tokens == old(self).tokens,
            final (self).errors == old(self).errors,
            final (self).start == old(self).start,
            final (self).line == old(self).line,
    {
        match self.currentc() {
            Some(ch) => {
                if ch == expected {
                    self.current = self.current + 1;
                    true
                } else {
                    false
                }
            },
            None => false,
        }
    }

    fn is_digit(ch: Option<char>) -> (r: bool)
        ensures
            r == match ch {
                Some(c) => is_digit_c(c),
                None => false,
            },
    {
        match ch {
            Some(c) => {
                let u = c as u32;
                48 <= u && u <= 57
            },
            None => false,
        }
    }

    fn is_alpha_numeric(ch: Option<char>) -> (r: bool)
        ensures
            r == match ch {
                Some(c) => is_alnum_c(c),
                None => false,
            },
    {
        match ch {
            Some(c) => {
                let u = c as u32;
                (65 <= u && u <= 90) || (97 <= u && u <= 122) || (48 <= u && u <= 57) || c == '_'
            },
            None => false,
        }
    }

    /// Appends a token spanning `start .. current`, at the current line.
    fn add_token(&mut self, ttype: TokenType, literal: Option<Literal>)
        requires
            old(self).start <= old(self).current <= old(self).source@.len(),
            match literal {
                Some(l) => l.wf() && !(l is ArithmeticError),
                None => true,
            },
        ensures
            *final (self) == (Scanner { tokens: final (self).tokens, ..*old(self) }),
            final (self).tokens@.len() == old(self).tokens@.len() + 1,
            final (self).tokens@ == old(self).tokens@.push(final (self).tokens@.last()),
            final (self).tokens@.last()@ == tok(
                ttype,
                old(self).source@.subrange(old(self).start as int, old(self).current as int),
                match literal {
                    Some(l) => Some(l@),
                    None => None,
                },
                old(self).line as int,
            ),
            final (self).tokens@.last().wf(),
            literal is Some ==> token_carries_value(final (self).tokens@.last()@),
    {
        let lexeme = self.source.as_str().substring_char(self.start, self.current).to_owned();
        let t = Token::new(ttype, lexeme, literal, self.line);
        self.tokens.push(t);
    }

    /// Scans the rest of a string literal; `start` stands on the opening
    /// quote and the cursor just after it. Embedded newlines advance the
    /// line counter; an unterminated string is a lexical error.
    fn string(&mut self) -> (r: Result<(), JialoxError>)
        requires
            old(self).wf(),
            old(self).current == old(self).start + 1,
            old(self).source@[old(self).start as int] == '"',
        ensures
            final (self).source@ == old(self).source@,
            final (self).start == old(self).start,
            final (self).errors == old(self).errors,
            final (self).wf(),
            ({
                let (closed, q, line2) = string_scan(
                    old(self).source@,
                    old(self).current as int,
                    old(self).line as int,
                );
                final (self).line == line2 && match r {
                    Ok(()) => closed && final (self).current == q + 1 && final (self).tokens@
                        == old(self).tokens@.push(final (self).tokens@.last())
                        && final (self).tokens@.last()@ == tok(
                        TokenType::Str,
                        old(self).source@.subrange(old(self).start as int, q + 1),
                        Some(LitView::StrV(old(self).source@.subrange(old(self).start as int + 1, q))),
                        old(self).line as int,
                    ) && final (self).tokens@.last().wf(),
                    Err(e) => !closed && final (self).current == q
                        && final (self).tokens == old(self).tokens
                        && e@ == lex_err(line2, "Unterminated string."@),
                }
            }),
    {
        let ghost s = self.source@;
        let ghost cur0 = self.current as int;
        let ghost line0 = self.line as int;
        let ghost toks0 = self.tokens;
        let ghost start0 = self.start;
        let opening_line = self.line;
        loop
            invariant
                self.source@ == s,
                self.start == start0,
                self.tokens == toks0,
                self.errors == old(self).errors,
                self.wf(),
                start0 + 1 <= self.current,
                opening_line as int == line0,
                string_scan(s, cur0, line0) == string_scan(
                    s,
                    self.current as int,
                    self.line as int,
                ),
            ensures
                opening_line as int == line0,
                self.source@ == s,
                self.start == start0,
                self.tokens == toks0,
                self.errors == old(self).errors,
                self.wf(),
                start0 + 1 <= self.current,
                string_scan(s, cur0, line0) == string_scan(
                    s,
                    self.current as int,
                    self.line as int,
                ),
                self.current >= s.len() || s[self.current as int] == '"',
            decreases s.len() - self.current,
        {
            match self.currentc() {
                Some(ch) => {
                    if ch == '"' {
                        break ;
                    }
                    if ch == '\n' {
                        self.line = self.line + 1;
                    }
                    self.advance();
                },
                None => {
                    break ;
                },
            }
        }
        if self.is_at_end() {
            return Err(JialoxError::error(self.line, "Unterminated string."));
        }
        self.advance();
        let value = self.source.as_str().substring_char(self.start + 1, self.current - 1).to_owned();
        // The token is stamped with the line of its first character, the
        // opening quote, not the line after embedded newlines.
        let lexeme = self.source.as_str().substring_char(self.start, self.current).to_owned();
        let t = Token::new(TokenType::Str, lexeme, Some(Literal::Str(value)), opening_line);
        self.tokens.push(t);
        Ok(())
    }

    /// Scans the rest of a numeric literal; `start` stands on its first
    /// digit and the cursor just after it. A literal whose exact value
    /// does not fit the number representation is a lexical error.
    fn number(&mut self) -> (r: Result<(), JialoxError>)
        requires
            old(self).wf(),
            old(self).current == old(self).start + 1,
            is_digit_c(old(self).source@[old(self).start as int]),
        ensures
            final (self).source@ == old(self).source@,
            final (self).start == old(self).start,
            final (self).line == old(self).line,
            final (self).errors == old(self).errors,
            final (self).wf(),
            final (self).current == number_end(old(self).source@, old(self).start as int),
            ({
                let s = old(self).source@;
                let j = old(self).start as int;
                if number_fits(s, j) {
                    let q = spec_norm(number_numer(s, j) as int, number_denom(s, j) as int);
                    r is Ok && final (self).tokens@ == old(self).tokens@.push(
                        final (self).tokens@.last(),
                    ) && final (self).tokens@.last()@ == tok(
                        TokenType::Number,
                        s.subrange(j, number_end(s, j)),
                        Some(LitView::NumV { n: q.num_int(), d: q.den_int() }),
                        old(self).line as int,
                    ) && final (self).tokens@.last().wf()
                } else {
                    final (self).tokens == old(self).tokens && match r {
                        Ok(_) => false,
                        Err(e) => e@ == lex_err(old(self).line as int, "Number literal too large"@),
                    }
                }
            }),
    {
        let ghost s = self.source@;
        let ghost j = self.start as int;
        proof {
            lemma_digits_end_bounds(s, j);
            assert(digits_end(s, j) == digits_end(s, j + 1));
        }
        while Self::is_digit(self.currentc())
            invariant
                s == old(self).source@,
                j == old(self).start as int,
                self.source@ == s,
                self.start == old(self).start,
                self.tokens == old(self).tokens,
                self.errors == old(self).errors,
                self.line == old(self).line,
                self.wf(),
                j < self.current,
                digits_end(s, j) == digits_end(s, self.current as int),
            decreases s.len() - self.current,
        {
            self.advance();
        }
        let ie_pos = self.current;
        let ghost ie = digits_end(s, j);
        proof {
            assert(ie_pos as int == ie);
        }
        let dot = match self.currentc() {
            Some(c) => c == '.',
            None => false,
        };
        let next_digit = Self::is_digit(self.next_currentc());
        if dot && next_digit {
            self.advance();
            proof {
                lemma_digits_end_bounds(s, ie + 2);
                assert(digits_end(s, ie + 1) == digits_end(s, ie + 2));
            }
            while Self::is_digit(self.currentc())
                invariant
                    s == old(self).source@,
                    j == old(self).start as int,
                    self.source@ == s,
                    self.start == old(self).start,
                    self.tokens == old(self).tokens,
                    self.errors == old(self).errors,
                    self.line == old(self).line,
                    self.wf(),
                    ie == digits_end(s, j),
                    ie + 1 <= self.current,
                    digits_end(s, ie + 1) == digits_end(s, self.current as int),
                    number_end(s, j) == digits_end(s, ie + 1),
                decreases s.len() - self.current,
            {
                self.advance();
            }
        }
        let e_pos = self.current;
        let ghost e = number_end(s, j);
        proof {
            assert(e_pos as int == e);
        }
        // Integer part value, with an exceeded-64-bits flag.
        let mut val: u128 = 0;
        let mut big = false;
        let mut k = self.start;
        while k < ie_pos
            invariant
                s == old(self).source@,
                j == old(self).start as int,
                self.source@ == s,
                ie == digits_end(s, j),
                ie_pos as int == ie,
                j <= k <= ie,
                ie <= s.len(),
                forall|m: int| j <= m < ie ==> is_digit_c(#[trigger] s[m]),
                !big ==> val as nat == digits_val(s, j, k as int) && val <= u64::MAX,
                big ==> digits_val(s, j, k as int) > u64::MAX,
            decreases ie_pos - k,
        {
            let c = self.source.as_str().get_char(k);
            let d: u128 = (c as u32 - 48) as u128;
            let ghost dv = digits_val(s, j, k as int);
            if !big {
                let nv = val * 10 + d;
                if nv > u64::MAX as u128 {
                    big = true;
                } else {
                    val = nv;
                }
            } else {
                proof {
                    assert(dv * 10 + digit_val(s[k as int]) >= dv) by (nonlinear_arith)
                        requires
                            dv >= 0,
                            digit_val(s[k as int]) >= 0,
                    ;
                }
            }
            k = k + 1;
        }
        // Fractional part value and digit count.
        let mut fval: u64 = 0;
        let mut flen: u32 = 0;
        if e_pos > ie_pos {
            proof {
                assert(e == digits_end(s, ie + 2));
                assert(s[ie] == '.' && is_digit_c(s[ie + 1]));
                lemma_digits_end_bounds(s, ie + 2);
            }
            let fl_usize = e_pos - ie_pos - 1;
            if fl_usize > 9 {
                return Err(JialoxError::error(self.line, "Number literal too large"));
            }
            flen = fl_usize as u32;
            let mut k2 = ie_pos + 1;
            while k2 < e_pos
                invariant
                    s == old(self).source@,
                    self.source@ == s,
                    ie_pos as int == ie,
                    e_pos as int == e,
                    ie + 1 <= k2 as int <= e,
                    e <= s.len(),
                    e - ie - 1 <= 9,
                    is_digit_c(s[ie + 1]),
                    forall|m: int| ie + 2 <= m < e ==> is_digit_c(#[trigger] s[m]),
                    fval as nat == digits_val(s, ie + 1, k2 as int),
                    fval < pow10((k2 - ie - 1) as nat),
                decreases e_pos - k2,
            {
                let c = self.source.as_str().get_char(k2);
                let d: u64 = (c as u32 - 48) as u64;
                proof {
                    let fv = fval as nat;
                    let p = pow10((k2 - ie - 1) as nat);
                    lemma_pow10_mono((k2 - ie - 1) as nat, 9);
                    assert(pow10(9) == 1000000000) by {
                        reveal_with_fuel(pow10, 10);
                    }
                    assert(fv * 10 + 9 < p * 10) by (nonlinear_arith)
                        requires
                            fv < p,
                    ;
                }
                fval = fval * 10 + d;
                k2 = k2 + 1;
            }
        }
        if big {
            proof {
                let iv = digits_val(s, j, ie);
                assert(iv > u64::MAX);
                if e != ie {
                    let p = pow10((e - ie - 1) as nat);
                    lemma_pow10_pos((e - ie - 1) as nat);
                    assert(iv * p >= iv) by (nonlinear_arith)
                        requires
                            iv >= 0,
                            p >= 1,
                    ;
                    assert(number_numer(s, j) == iv * p + digits_val(s, ie + 1, e));
                    assert(number_numer(s, j) >= iv);
                } else {
                    assert(number_numer(s, j) == iv);
                }
                assert(!number_fits(s, j));
            }
            return Err(JialoxError::error(self.line, "Number literal too large"));
        }
        let p10: u64 = Self::pow10_u64(flen);
        proof {
            assert(val * (p10 as u128) <= u64::MAX as u128 * 1000000000) by (nonlinear_arith)
                requires
                    val <= u64::MAX as u128,
                    p10 as u128 <= 1000000000,
                    val >= 0,
                    p10 >= 0,
            ;
        }
        let numer128: u128 = val * (p10 as u128) + (fval as u128);
        let den: u32 = p10 as u32;
        proof {
            if e != ie {
                assert(flen as nat == (e - ie - 1) as nat);
                assert(p10 as nat == pow10((e - ie - 1) as nat));
                assert(val as nat == digits_val(s, j, ie));
                assert(fval as nat == digits_val(s, ie + 1, e));
                assert(numer128 as nat == number_numer(s, j));
                assert(den as nat == number_denom(s, j));
            } else {
                assert(flen == 0);
                assert(fval == 0);
                assert(p10 == 1);
                assert(val * (p10 as u128) == val) by (nonlinear_arith)
                    requires
                        p10 as u128 == 1,
                        val >= 0,
                ;
                assert(numer128 as nat == val as nat);
                assert(numer128 as nat == number_numer(s, j));
                assert(den as nat == number_denom(s, j));
            }
        }
        if numer128 > u64::MAX as u128 {
            return Err(JialoxError::error(self.line, "Number literal too large"));
        }
        let q = Rational::new(false, numer128 as u64, den);
        self.add_token(TokenType::Number, Some(Literal::Num(q)));
        Ok(())
    }

    /// Consumes one step's worth of input: whitespace, a comment, one
    /// token, or one erroneous character, as `scan_step` specifies.
    fn scan_token(&mut self) -> (r: Result<(), JialoxError>)
        requires
            old(self).wf(),
            old(self).start == old(self).current,
            old(self).current < old(self).source@.len(),
        ensures
            final (self).source@ == old(self).source@,
            final (self).errors == old(self).errors,
            final (self).wf(),
            ({
                let st = scan_step(old(self).source@, old(self).current as int, old(self).line as int);
                old(self).current < final (self).current && final (self).current == st.next
                    && final (self).line == st.line && (match st.token {
                    Some(t) => final (self).tokens@ == old(self).tokens@.push(
                        final (self).tokens@.last(),
                    ) && final (self).tokens@.last()@ == t && final (self).tokens@.last().wf()
                        && token_carries_value(t),
                    None => final (self).tokens == old(self).tokens,
                }) && (match r {
                    Ok(()) => st.error is None,
                    Err(e) => st.error == Some(e@),
                })
            }),
    {
        let ghost s = self.source@;
        let ghost i = self.current as int;
        let ghost line0 = self.line as int;
        let c = self.advance();
        if c == '(' {
            self.add_terminator(TokenType::LeftParen);
            Ok(())
        } else if c == ')' {
            self.add_terminator(TokenType::RightParen);
            Ok(())
        } else if c == '{' {
            self.add_terminator(TokenType::LeftBrace);
            Ok(())
        } else if c == '}' {
            self.add_terminator(TokenType::RightBrace);
            Ok(())
        } else if c == ',' {
            self.add_terminator(TokenType::Comma);
            Ok(())
        } else if c == '.' {
            self.add_terminator(TokenType::Dot);
            Ok(())
        } else if c == '-' {
            self.add_terminator(TokenType::Minus);
            Ok(())
        } else if c == '+' {
            self.add_terminator(TokenType::Plus);
            Ok(())
        } else if c == ';' {
            self.add_terminator(TokenType::Semicolon);
            Ok(())
        } else if c == '*' {
            self.add_terminator(TokenType::Star);
            Ok(())
        } else if c == '!' {
            let tt = if self.next_match('=') {
                TokenType::BangEqual
            } else {
                TokenType::Bang
            };
            self.add_terminator(tt);
            Ok(())
        } else if c == '=' {
            let tt = if self.next_match('=') {
                TokenType::EqualEqual
            } else {
                TokenType::Equal
            };
            self.add_terminator(tt);
            Ok(())
        } else if c == '<' {
            let tt = if self.next_match('=') {
                TokenType::LessEqual
            } else {
                TokenType::Less
            };
            self.add_terminator(tt);
            Ok(())
        } else if c == '>' {
            let tt = if self.next_match('=') {
                TokenType::GreaterEqual
            } else {
                TokenType::Greater
            };
            self.add_terminator(tt);
            Ok(())
        } else if c == '/' {
            if self.next_match('/') {
                // A comment goes until the end of the line.
                loop
                    invariant
                        s == old(self).source@,
                        self.source@ == s,
                        self.start == old(self).start,
                        self.tokens == old(self).tokens,
                        self.errors == old(self).errors,
                        self.line == old(self).line,
                        self.wf(),
                        i < self.current,
                        line_comment_end(s, i + 2) == line_comment_end(s, self.current as int),
                    ensures
                        self.source@ == s,
                        self.start == old(self).start,
                        self.tokens == old(self).tokens,
                        self.errors == old(self).errors,
                        self.line == old(self).line,
                        self.wf(),
                        i < self.current,
                        self.current as int == line_comment_end(s, i + 2),
                    decreases s.len() - self.current,
                {
                    match self.currentc() {
                        Some(ch) => {
                            if ch != '\n' {
                                self.advance();
                            } else {
                                break ;
                            }
                        },
                        None => {
                            break ;
                        },
                    }
                }
                Ok(())
            } else if self.next_match('*') {
                proof {
                    lemma_block_scan_bounds(s, i + 2, line0, 1);
                }
                self.scan_block_comments()
            } else {
                self.add_terminator(TokenType::Slash);
                Ok(())
            }
        } else if c == ' ' || c == '\r' || c == '\t' {
            Ok(())
        } else if c == '\n' {
            self.line = self.line + 1;
            Ok(())
        } else if c == '"' {
            proof {
                lemma_string_scan_bounds(s, i + 1, line0);
            }
            self.string()
        } else {
            let u = c as u32;
            if 48 <= u && u <= 57 {
                proof {
                    lemma_digits_end_bounds(s, i + 1);
                    let ie2 = digits_end(s, i);
                    if ie2 + 1 < s.len() && s[ie2] == '.' && is_digit_c(s[ie2 + 1]) {
                        lemma_digits_end_bounds(s, ie2 + 2);
                    }
                }
                self.number()
            } else if (65 <= u && u <= 90) || (97 <= u && u <= 122) || c == '_' {
                proof {
                    lemma_ident_end_bounds(s, i + 1);
                }
                self.identifier();
                Ok(())
            } else {
                Err(JialoxError::error(self.line, "Unexpected character"))
            }
        }
    }

    /// Scans the whole source to its token sequence, closed by the
    /// end-of-input token. Scanning continues past lexical errors: every
    /// diagnostic is kept, in order, in `errors`, and the most recent one
    /// is the returned failure. On failure the full token sequence stays
    /// readable in `tokens`.
    pub fn scan_tokens(&mut self) -> (r: Result<Vec<Token>, JialoxError>)
        requires
            old(self).wf(),
            old(self).current == 0,
            old(self).line == 1,
            old(self).tokens@.len() == 0,
            old(self).errors@.len() == 0,
        ensures
            ({
                let (tv, ev) = spec_scan(old(self).source@, 0, 1, Seq::empty(), Seq::empty());
                final (self).errors@.map_values(|e: JialoxError| e@) == ev && match r {
                    Ok(toks) => ev.len() == 0 && toks@.map_values(|t: Token| t@) == tv
                        && toks@.len() >= 1 && toks@.last()@.ttype == TokenType::Eof && (forall|
                        k: int,
                    |
                        0 <= k < toks@.len() ==> (#[trigger] toks@[k]).wf() && token_carries_value(
                            toks@[k]@,
                        )),
                    Err(e) => ev.len() > 0 && e@ == ev.last()
                        && final (self).tokens@.map_values(|t: Token| t@) == tv
                        && final (self).tokens@.len() >= 1
                        && final (self).tokens@.last()@.ttype == TokenType::Eof && (forall|k: int|
                        0 <= k < final (self).tokens@.len()
                            ==> (#[trigger] final (self).tokens@[k]).wf()
                            && token_carries_value(final (self).tokens@[k]@)),
                }
            }),
    {
        let ghost s = self.source@;
        proof {
            assert(self.tokens@.map_values(|t: Token| t@) =~= Seq::<TokenView>::empty());
            assert(self.errors@.map_values(|e: JialoxError| e@) =~= Seq::<ErrorView>::empty());
        }
        while !self.is_at_end()
            invariant
                s == old(self).source@,
                self.source@ == s,
                self.wf(),
                self.tokens_ok(),
                spec_scan(s, 0, 1, Seq::empty(), Seq::empty()) == spec_scan(
                    s,
                    self.current as int,
                    self.line as int,
                    self.tokens@.map_values(|t: Token| t@),
                    self.errors@.map_values(|e: JialoxError| e@),
                ),
            decreases s.len() - self.current,
        {
            self.start = self.current;
            let ghost pre = *self;
            let step_result = self.scan_token();
            proof {
                let st = scan_step(s, pre.current as int, pre.line as int);
                match st.token {
                    Some(t) => {
                        assert(self.tokens@.map_values(|t2: Token| t2@) =~= pre.tokens@.map_values(
                            |t2: Token| t2@,
                        ) + seq![t]);
                    },
                    None => {
                        assert(self.tokens@.map_values(|t2: Token| t2@) =~= pre.tokens@.map_values(
                            |t2: Token| t2@,
                        ) + Seq::<TokenView>::empty());
                    },
                }
            }
            match step_result {
                Ok(()) => {
                    proof {
                        assert(self.errors@.map_values(|e2: JialoxError| e2@)
                            =~= pre.errors@.map_values(|e2: JialoxError| e2@) + Seq::<
                            ErrorView,
                        >::empty());
                    }
                },
                Err(e) => {
                    self.errors.push(e);
                    proof {
                        assert(self.errors@.map_values(|e2: JialoxError| e2@)
                            =~= pre.errors@.map_values(|e2: JialoxError| e2@) + seq![
                            self.errors@.last()@,
                        ]);
                    }
                },
            }
        }
        self.tokens.push(Token::eof(self.line));
        proof {
            assert(self.tokens@.map_values(|t: Token| t@) =~= self.tokens@.drop_last().map_values(
                |t: Token| t@,
            ).push(self.tokens@.last()@));
        }
        if self.errors.is_empty() {
            let mut toks: Vec<Token> = Vec::new();
            core::mem::swap(&mut toks, &mut self.tokens);
            Ok(toks)
        } else {
            let last = self.errors.len() - 1;
            proof {
                assert(self.errors@.map_values(|e: JialoxError| e@).last() == self.errors@.last()@);
            }
            Err(self.errors[last].duplicate())
        }
    }

    /// `10 ^ k` for a small exponent.
    fn pow10_u64(k: u32) -> (r: u64)
        requires
            k <= 9,
        ensures
            r as nat == pow10(k as nat),
            1 <= r <= 1000000000,
    {
        let mut r: u64 = 1;
        let mut i: u32 = 0;
        while i < k
            invariant
                i <= k <= 9,
                r as nat == pow10(i as nat),
            decreases k - i,
        {
            proof {
                lemma_pow10_mono(i as nat, 8);
                assert(pow10(8) == 100000000) by {
                    reveal_with_fuel(pow10, 9);
                }
            }
            r = r * 10;
            i = i + 1;
        }
        proof {
            lemma_pow10_mono(k as nat, 9);
            lemma_pow10_pos(k as nat);
            assert(pow10(9) == 1000000000) by {
                reveal_with_fuel(pow10, 10);
            }
        }
        r
    }

    /// Scans the rest of an identifier or keyword; `start` stands on its
    /// first character and the cursor just after it.
    fn identifier(&mut self)
        requires
            old(self).wf(),
            old(self).current == old(self).start + 1,
            is_alpha_c(old(self).source@[old(self).start as int]),
        ensures
            final (self).source@ == old(self).source@,
            final (self).start == old(self).start,
            final (self).line == old(self).line,
            final (self).errors == old(self).errors,
            final (self).wf(),
            final (self).current == ident_end(old(self).source@, old(self).start as int),
            ({
                let lex = old(self).source@.subrange(
                    old(self).start as int,
                    ident_end(old(self).source@, old(self).start as int),
                );
                let tt = keyword_type(lex);
                final (self).tokens@ == old(self).tokens@.push(final (self).tokens@.last())
                    && final (self).tokens@.last()@ == tok(
                    tt,
                    lex,
                    keyword_literal(tt),
                    old(self).line as int,
                ) && final (self).tokens@.last().wf()
            }),
    {
        let ghost s = self.source@;
        let ghost j = self.start as int;
        let ghost toks0 = self.tokens;
        let ghost start0 = self.start;
        let ghost line0 = self.line;
        proof {
            assert(ident_end(s, j) == ident_end(s, j + 1));
        }
        while Self::is_alpha_numeric(self.currentc())
            invariant
                self.source@ == s,
                self.start == start0,
                self.tokens == toks0,
                self.errors == old(self).errors,
                self.line == line0,
                self.wf(),
                start0 < self.current,
                ident_end(s, j) == ident_end(s, self.current as int),
            decreases s.len() - self.current,
        {
            self.advance();
        }
        let text = self.source.as_str().substring_char(self.start, self.current).to_owned();
        let ttype = self.ttype_of_ident_or_keyword(&text);
        self.add_ident_or_keyword(ttype);
    }

    /// The keyword table lookup: a reserved word's kind, else `Identifier`.
    fn ttype_of_ident_or_keyword(&self, check: &String) -> (tt: TokenType)
        ensures
            tt == keyword_type(check@),
    {
        if check.eq(&String::from_str("and")) {
            TokenType::And
        } else if check.eq(&String::from_str("class")) {
            TokenType::Class
        } else if check.eq(&String::from_str("else")) {
            TokenType::Else
        } else if check.eq(&String::from_str("false")) {
            TokenType::False
        } else if check.eq(&String::from_str("for")) {
            TokenType::For
        } else if check.eq(&String::from_str("func")) {
            TokenType::Func
        } else if check.eq(&String::from_str("if")) {
            TokenType::If
        } else if check.eq(&String::from_str("nil")) {
            TokenType::Nil
        } else if check.eq(&String::from_str("or")) {
            TokenType::Or
        } else if check.eq(&String::from_str("print")) {
            TokenType::Print
        } else if check.eq(&String::from_str("return")) {
            TokenType::Return
        } else if check.eq(&String::from_str("super")) {
            TokenType::Super
        } else if check.eq(&String::from_str("this")) {
            TokenType::This
        } else if check.eq(&String::from_str("true")) {
            TokenType::True
        } else if check.eq(&String::from_str("var")) {
            TokenType::Var
        } else if check.eq(&String::from_str("while")) {
            TokenType::While
        } else {
            TokenType::Identifier
        }
    }

    /// Appends the identifier or keyword token; `true`, `false` and `nil`
    /// carry their value.
    fn add_ident_or_keyword(&mut self, ttype: TokenType)
        requires
            old(self).start <= old(self).current <= old(self).source@.len(),
        ensures
            *final (self) == (Scanner { tokens: final (self).tokens, ..*old(self) }),
            final (self).tokens@ == old(self).tokens@.push(final (self).tokens@.last()),
            final (self).tokens@.last()@ == tok(
                ttype,
                old(self).source@.subrange(old(self).start as int, old(self).current as int),
                keyword_literal(ttype),
                old(self).line as int,
            ),
            final (self).tokens@.last().wf(),
    {
        match ttype {
            TokenType::True => {
                self.add_token(ttype, Some(Literal::Bool(true)));
            },
            TokenType::False => {
                self.add_token(ttype, Some(Literal::Bool(false)));
            },
            TokenType::Nil => {
                self.add_token(ttype, Some(Literal::Nil));
            },
            _ => {
                self.add_terminator(ttype);
            },
        }
    }

    /// Scans past a nestable block comment; the cursor stands just after
    /// the opening `/*`. Reaching the end of input first is a lexical
    /// error.
    fn scan_block_comments(&mut self) -> (r: Result<(), JialoxError>)
        requires
            old(self).wf(),
        ensures
            final (self).source@ == old(self).source@,
            final (self).start == old(self).start,
            final (self).tokens == old(self).tokens,
            final (self).errors == old(self).errors,
            final (self).wf(),
            ({
                let (ok, nx, l2) = block_scan(
                    old(self).source@,
                    old(self).current as int,
                    old(self).line as int,
                    1,
                );
                final (self).current == nx && final (self).line == l2 && match r {
                    Ok(()) => ok,
                    Err(e) => !ok && e@ == lex_err(l2, "Unterminated block comments"@),
                }
            }),
    {
        let ghost s = self.source@;
        let mut depth: usize = 1;
        loop
            invariant
                s == old(self).source@,
                self.source@ == s,
                self.start == old(self).start,
                self.tokens == old(self).tokens,
                self.errors == old(self).errors,
                self.wf(),
                1 <= depth,
                2 * depth <= self.current + 2,
                block_scan(s, old(self).current as int, old(self).line as int, 1) == block_scan(
                    s,
                    self.current as int,
                    self.line as int,
                    depth as int,
                ),
            decreases s.len() - self.current,
        {
            match self.currentc() {
                Some(c) => {
                    if c == '*' {
                        self.advance();
                        if self.next_match('/') {
                            if depth == 1 {
                                return Ok(());
                            }
                            depth = depth - 1;
                        }
                    } else if c == '/' {
                        self.advance();
                        if self.next_match('*') {
                            depth = depth + 1;
                        }
                    } else if c == '\n' {
                        self.advance();
                        self.line = self.line + 1;
                    } else {
                        self.advance();
                    }
                },
                None => {
                    return Err(JialoxError::error(self.line, "Unterminated block comments"));
                },
            }
        }
    }

    fn add_terminator(&mut self, ttype: TokenType)
        requires
            old(self).start <= old(self).current <= old(self).source@.len(),
        ensures
            *final (self) == (Scanner { tokens: final (self).tokens, ..*old(self) }),
            final (self).tokens@.len() == old(self).tokens@.len() + 1,
            final (self).tokens@ == old(self).tokens@.push(final (self).tokens@.last()),
            final (self).tokens@.last()@ == tok(
                ttype,
                old(self).source@.subrange(old(self).start as int, old(self).current as int),
                None,
                old(self).line as int,
            ),
            final (self).tokens@.last().wf(),
    {
        self.add_token(ttype, None);
    }
}

} // verus!

//! The lexer: source text in, tokens out.
//!
//! The scan is specified by a step function over the character sequence:
//! each step consumes at least one character and either emits a token,
//! skips blank or comment text, or stops with a lexing error.  Every
//! disambiguation takes the longest lexeme available at the current
//! position (maximal munch).
use crate::chars::{
    all_digits, alpha_char_exec, digit_char_exec, digit_val_exec, digits_val, ident_char_exec,
    is_alpha_char, is_digit_char, is_ident_char, lemma_digits_val_bounds, lemma_digits_val_extend,
};
use crate::number::{lemma_canon, max_mantissa, max_scale, norm_num, Number};
use crate::token_type::{Literal, LiteralV, Token, TokenType, TokenV};
use vstd::prelude::*;

verus! {

/// A lexing failure, with the offending character or construct and the
/// line it sits on.
#[derive(Debug, PartialEq, Eq, Clone, Copy, Structural)]
pub enum LexError {
    /// A character outside the language's alphabet.
    UnexpectedChar { ch: char, line: i32 },
    /// A string literal still open at end of input.
    UnterminatedString { line: i32 },
    /// A number literal outside the representable decimal range.
    NumberTooLarge { line: i32 },
}

/// One lexing step: a token with the next position and line, a skip to
/// the next position and line, or a failure.
pub enum Step {
    Tok(TokenV, int, int),
    Skip(int, int),
    Stop(LexError),
}

/// End of the maximal digit run starting at `pos`.
pub open spec fn digits_end(src: Seq<char>, pos: int) -> int
    decreases src.len() - pos
        when 0 <= pos <= src.len()
{
    if pos < src.len() && is_digit_char(src[pos]) {
        digits_end(src, pos + 1)
    } else {
        pos
    }
}

/// End of the maximal identifier run starting at `pos`.
pub open spec fn ident_end(src: Seq<char>, pos: int) -> int
    decreases src.len() - pos
        when 0 <= pos <= src.len()
{
    if pos < src.len() && is_ident_char(src[pos]) {
        ident_end(src, pos + 1)
    } else {
        pos
    }
}

/// First position at or after `pos` holding a double quote, or the end.
pub open spec fn quote_end(src: Seq<char>, pos: int) -> int
    decreases src.len() - pos
        when 0 <= pos <= src.len()
{
    if pos < src.len() && src[pos] != '"' {
        quote_end(src, pos + 1)
    } else {
        pos
    }
}

/// First position at or after `pos` holding a newline, or the end.
pub open spec fn line_break(src: Seq<char>, pos: int) -> int
    decreases src.len() - pos
        when 0 <= pos <= src.len()
{
    if pos < src.len() && src[pos] != '\n' {
        line_break(src, pos + 1)
    } else {
        pos
    }
}

/// Number of newline characters in `src[a..b)`.
pub open spec fn newlines(src: Seq<char>, a: int, b: int) -> int
    decreases b - a,
{
    if a < b {
        (if src[a] == '\n' {
            1int
        } else {
            0int
        }) + newlines(src, a + 1, b)
    } else {
        0
    }
}

/// A token without a payload, spanning `src[a..b)`.
pub open spec fn span_token(tt: TokenType, src: Seq<char>, a: int, b: int, line: int) -> TokenV {
    TokenV { token_type: tt, lexeme: src.subrange(a, b), literal: LiteralV::Nil, line }
}

/// The keyword table: a keyword's kind, or IDENTIFIER.
pub open spec fn keyword_or_ident(w: Seq<char>) -> TokenType {
    if w == "and"@ {
        TokenType::AND
    } else if w == "class"@ {
        TokenType::CLASS
    } else if w == "else"@ {
        TokenType::ELSE
    } else if w == "false"@ {
        TokenType::FALSE
    } else if w == "for"@ {
        TokenType::FOR
    } else if w == "fun"@ {
        TokenType::FUN
    } else if w == "if"@ {
        TokenType::IF
    } else if w == "nil"@ {
        TokenType::NIL
    } else if w == "or"@ {
        TokenType::OR
    } else if w == "print"@ {
        TokenType::PRINT
    } else if w == "return"@ {
        TokenType::RETURN
    } else if w == "super"@ {
        TokenType::SUPER
    } else if w == "this"@ {
        TokenType::THIS
    } else if w == "true"@ {
        TokenType::TRUE
    } else if w == "var"@ {
        TokenType::VAR
    } else if w == "while"@ {
        TokenType::WHILE
    } else {
        TokenType::IDENTIFIER
    }
}

/// A one- or two-character operator: the longer kind when `=` follows.
pub open spec fn two_char_step(
    src: Seq<char>,
    pos: int,
    line: int,
    with_eq: TokenType,
    without: TokenType,
) -> Step {
    if pos + 1 < src.len() && src[pos + 1] == '=' {
        Step::Tok(span_token(with_eq, src, pos, pos + 2, line), pos + 2, line)
    } else {
        Step::Tok(span_token(without, src, pos, pos + 1, line), pos + 1, line)
    }
}

/// The digit characters of a number literal at `pos`: the integer run
/// and, when a dot directly followed by a digit comes next, the
/// fraction run.
pub open spec fn number_digits(src: Seq<char>, pos: int) -> Seq<char> {
    let ie = digits_end(src, pos);
    if ie + 1 < src.len() && src[ie] == '.' && is_digit_char(src[ie + 1]) {
        src.subrange(pos, ie) + src.subrange(ie + 1, digits_end(src, ie + 1))
    } else {
        src.subrange(pos, ie)
    }
}

/// End of a number literal at `pos`.
pub open spec fn number_end(src: Seq<char>, pos: int) -> int {
    let ie = digits_end(src, pos);
    if ie + 1 < src.len() && src[ie] == '.' && is_digit_char(src[ie + 1]) {
        digits_end(src, ie + 1)
    } else {
        ie
    }
}

/// Count of fraction digits of a number literal at `pos`.
pub open spec fn number_frac(src: Seq<char>, pos: int) -> int {
    let ie = digits_end(src, pos);
    if ie + 1 < src.len() && src[ie] == '.' && is_digit_char(src[ie + 1]) {
        digits_end(src, ie + 1) - (ie + 1)
    } else {
        0
    }
}

/// Scan a number literal: the digits read as an exact decimal, or a
/// too-large failure.
pub open spec fn number_step(src: Seq<char>, pos: int, line: int) -> Step {
    let e = number_end(src, pos);
    let raw = digits_val(number_digits(src, pos));
    let f = number_frac(src, pos);
    if raw <= max_mantissa() && f <= max_scale() {
        Step::Tok(
            TokenV {
                token_type: TokenType::NUMBER,
                lexeme: src.subrange(pos, e),
                literal: LiteralV::Num(norm_num(raw, f as nat)),
                line,
            },
            e,
            line,
        )
    } else {
        Step::Stop(LexError::NumberTooLarge { line: line as i32 })
    }
}

/// Scan a string literal: the text between the quotes, with the line
/// advanced over embedded newlines, or an unterminated failure.
pub open spec fn string_step(src: Seq<char>, pos: int, line: int) -> Step {
    let e = quote_end(src, pos + 1);
    let l2 = line + newlines(src, pos + 1, e);
    if e >= src.len() {
        Step::Stop(LexError::UnterminatedString { line: l2 as i32 })
    } else {
        Step::Tok(
            TokenV {
                token_type: TokenType::STRING,
                lexeme: src.subrange(pos, e + 1),
                literal: LiteralV::Str(src.subrange(pos + 1, e)),
                line: l2,
            },
            e + 1,
            l2,
        )
    }
}

/// One step of the scan at position `pos` on line `line`.
pub open spec fn step(src: Seq<char>, pos: int, line: int) -> Step
    recommends
        0 <= pos < src.len(),
{
    let c = src[pos];
    if c == '(' {
        Step::Tok(span_token(TokenType::LEFT_PAREN, src, pos, pos + 1, line), pos + 1, line)
    } else if c == ')' {
        Step::Tok(span_token(TokenType::RIGHT_PAREN, src, pos, pos + 1, line), pos + 1, line)
    } else if c == '{' {
        Step::Tok(span_token(TokenType::LEFT_BRACE, src, pos, pos + 1, line), pos + 1, line)
    } else if c == '}' {
        Step::Tok(span_token(TokenType::RIGHT_BRACE, src, pos, pos + 1, line), pos + 1, line)
    } else if c == ',' {
        Step::Tok(span_token(TokenType::COMMA, src, pos, pos + 1, line), pos + 1, line)
    } else if c == '.' {
        Step::Tok(span_token(TokenType::DOT, src, pos, pos + 1, line), pos + 1, line)
    } else if c == '-' {
        Step::Tok(span_token(TokenType::MINUS, src, pos, pos + 1, line), pos + 1, line)
    } else if c == '+' {
        Step::Tok(span_token(TokenType::PLUS, src, pos, pos + 1, line), pos + 1, line)
    } else if c == ';' {
        Step::Tok(span_token(TokenType::SEMICOLON, src, pos, pos + 1, line), pos + 1, line)
    } else if c == '*' {
        Step::Tok(span_token(TokenType::STAR, src, pos, pos + 1, line), pos + 1, line)
    } else if c == '!' {
        two_char_step(src, pos, line, TokenType::BANG_EQUAL, TokenType::BANG)
    } else if c == '=' {
        two_char_step(src, pos, line, TokenType::EQUAL_EQUAL, TokenType::EQUAL)
    } else if c == '<' {
        two_char_step(src, pos, line, TokenType::LESS_EQUAL, TokenType::LESS)
    } else if c == '>' {
        two_char_step(src, pos, line, TokenType::GREATER_EQUAL, TokenType::GREATER)
    } else if c == '/' {
        if pos + 1 < src.len() && src[pos + 1] == '/' {
            Step::Skip(line_break(src, pos + 2), line)
        } else {
            Step::Tok(span_token(TokenType::SLASH, src, pos, pos + 1, line), pos + 1, line)
        }
    } else if c == ' ' || c == '\r' || c == '\t' {
        Step::Skip(pos + 1, line)
    } else if c == '\n' {
        Step::Skip(pos + 1, line + 1)
    } else if c == '"' {
        string_step(src, pos, line)
    } else if is_digit_char(c) {
        number_step(src, pos, line)
    } else if is_alpha_char(c) {
        let e = ident_end(src, pos);
        let w = src.subrange(pos, e);
        Step::Tok(
            TokenV { token_type: keyword_or_ident(w), lexeme: w, literal: LiteralV::Nil, line },
            e,
            line,
        )
    } else {
        Step::Stop(LexError::UnexpectedChar { ch: c, line: line as i32 })
    }
}

/// The end-of-input token.
pub open spec fn eof_token(line: int) -> TokenV {
    TokenV {
        token_type: TokenType::EOF,
        lexeme: Seq::<char>::empty(),
        literal: LiteralV::Nil,
        line,
    }
}

/// Properties of the maximal-run helpers.
pub proof fn lemma_digits_end(src: Seq<char>, pos: int)
    requires
        0 <= pos <= src.len(),
    ensures
        pos <= digits_end(src, pos) <= src.len(),
        forall|i: int| pos <= i < digits_end(src, pos) ==> is_digit_char(#[trigger] src[i]),
        digits_end(src, pos) < src.len() ==> !is_digit_char(src[digits_end(src, pos)]),
    decreases src.len() - pos,
{
    if pos < src.len() && is_digit_char(src[pos]) {
        lemma_digits_end(src, pos + 1);
    }
}

pub proof fn lemma_ident_end(src: Seq<char>, pos: int)
    requires
        0 <= pos <= src.len(),
    ensures
        pos <= ident_end(src, pos) <= src.len(),
        forall|i: int| pos <= i < ident_end(src, pos) ==> is_ident_char(#[trigger] src[i]),
        ident_end(src, pos) < src.len() ==> !is_ident_char(src[ident_end(src, pos)]),
    decreases src.len() - pos,
{
    if pos < src.len() && is_ident_char(src[pos]) {
        lemma_ident_end(src, pos + 1);
    }
}

pub proof fn lemma_quote_end(src: Seq<char>, pos: int)
    requires
        0 <= pos <= src.len(),
    ensures
        pos <= quote_end(src, pos) <= src.len(),
        forall|i: int| pos <= i < quote_end(src, pos) ==> #[trigger] src[i] != '"',
        quote_end(src, pos) < src.len() ==> src[quote_end(src, pos)] == '"',
    decreases src.len() - pos,
{
    if pos < src.len() && src[pos] != '"' {
        lemma_quote_end(src, pos + 1);
    }
}

pub proof fn lemma_line_break(src: Seq<char>, pos: int)
    requires
        0 <= pos <= src.len(),
    ensures
        pos <= line_break(src, pos) <= src.len(),
        forall|i: int| pos <= i < line_break(src, pos) ==> #[trigger] src[i] != '\n',
        line_break(src, pos) < src.len() ==> src[line_break(src, pos)] == '\n',
    decreases src.len() - pos,
{
    if pos < src.len() && src[pos] != '\n' {
        lemma_line_break(src, pos + 1);
    }
}

pub proof fn lemma_newlines_bounds(src: Seq<char>, a: int, b: int)
    ensures
        0 <= newlines(src, a, b),
        a <= b ==> newlines(src, a, b) <= b - a,
    decreases b - a,
{
    if a < b {
        lemma_newlines_bounds(src, a + 1, b);
    }
}

/// Counting newlines one position further to the right.
pub proof fn lemma_newlines_extend(src: Seq<char>, a: int, b: int)
    requires
        a <= b < src.len(),
    ensures
        newlines(src, a, b + 1) == newlines(src, a, b) + (if src[b] == '\n' {
            1int
        } else {
            0int
        }),
    decreases b - a,
{
    if a < b {
        lemma_newlines_extend(src, a + 1, b);
        assert(newlines(src, a, b + 1) == (if src[a] == '\n' {
            1int
        } else {
            0int
        }) + newlines(src, a + 1, b + 1));
        assert(newlines(src, a, b) == (if src[a] == '\n' {
            1int
        } else {
            0int
        }) + newlines(src, a + 1, b));
    } else {
        assert(newlines(src, a, a) == 0);
        assert(newlines(src, a + 1, a + 1) == 0);
        assert(newlines(src, a, a + 1) == (if src[a] == '\n' {
            1int
        } else {
            0int
        }) + newlines(src, a + 1, a + 1));
    }
}

/// Each step lands strictly further right, inside the input, and moves
/// the line count by at most the characters consumed.
pub proof fn lemma_step_progress(src: Seq<char>, pos: int, line: int)
    requires
        0 <= pos < src.len(),
    ensures
        match step(src, pos, line) {
            Step::Tok(t, p2, l2) => pos < p2 <= src.len() && line <= l2 <= line + (p2 - pos),
            Step::Skip(p2, l2) => pos < p2 <= src.len() && line <= l2 <= line + (p2 - pos),
            Step::Stop(e) => true,
        },
{
    let c = src[pos];
    if c == '/' && pos + 1 < src.len() && src[pos + 1] == '/' {
        lemma_line_break(src, pos + 2);
    } else if c == '"' {
        lemma_quote_end(src, pos + 1);
        lemma_newlines_bounds(src, pos + 1, quote_end(src, pos + 1));
    } else if is_digit_char(c) && c != '"' && c != '/' {
        lemma_digits_end(src, pos);
        let ie = digits_end(src, pos);
        assert(ie > pos);
        if ie + 1 < src.len() && src[ie] == '.' && is_digit_char(src[ie + 1]) {
            lemma_digits_end(src, ie + 1);
        }
    } else if is_alpha_char(c) {
        lemma_ident_end(src, pos);
        assert(ident_end(src, pos) > pos);
    }
}

/// The scan: tokens from `pos` to the end of the input, or the first
/// lexing failure.
pub open spec fn scan_from(src: Seq<char>, pos: int, line: int) -> Result<Seq<TokenV>, LexError>
    decreases src.len() - pos
        when 0 <= pos <= src.len()
        via scan_from_decreases
{
    if pos >= src.len() {
        Ok(seq![eof_token(line)])
    } else {
        match step(src, pos, line) {
            Step::Tok(t, p2, l2) => match scan_from(src, p2, l2) {
                Ok(rest) => Ok(seq![t] + rest),
                Err(e) => Err(e),
            },
            Step::Skip(p2, l2) => scan_from(src, p2, l2),
            Step::Stop(e) => Err(e),
        }
    }
}

#[via_fn]
proof fn scan_from_decreases(src: Seq<char>, pos: int, line: int) {
    if pos < src.len() {
        lemma_step_progress(src, pos, line);
    }
}

/// The whole-input scan, from the first character on line one.
pub open spec fn scan_spec(src: Seq<char>) -> Result<Seq<TokenV>, LexError> {
    scan_from(src, 0, 1)
}

/// The shadows of a token sequence.
pub open spec fn token_views(ts: Seq<Token>) -> Seq<TokenV> {
    ts.map_values(|t: Token| t@)
}

/// Every token a step emits is well formed.
proof fn lemma_step_wf(src: Seq<char>, pos: int, line: int)
    requires
        0 <= pos < src.len(),
        line >= 1,
    ensures
        step(src, pos, line) matches Step::Tok(t, p2, l2) ==> t.wf() && t.token_type
            != TokenType::EOF,
{
    let c = src[pos];
    if c == '"' {
        lemma_quote_end(src, pos + 1);
        lemma_newlines_bounds(src, pos + 1, quote_end(src, pos + 1));
    } else if is_digit_char(c) && c != '"' && c != '/' && c != '.' {
        lemma_digits_end(src, pos);
        let ie = digits_end(src, pos);
        let nd = number_digits(src, pos);
        if ie + 1 < src.len() && src[ie] == '.' && is_digit_char(src[ie + 1]) {
            lemma_digits_end(src, ie + 1);
        }
        assert(all_digits(nd));
        lemma_digits_val_bounds(nd);
        let raw = digits_val(nd);
        let f = number_frac(src, pos);
        if raw <= max_mantissa() && f <= max_scale() {
            lemma_canon(raw, f as nat);
            assert(norm_num(raw, f as nat).inv());
        }
    }
}

/// A finished scan yields well-formed tokens with exactly one EOF
/// token, at the end.
pub proof fn lemma_scan_from_wf(src: Seq<char>, pos: int, line: int)
    requires
        0 <= pos <= src.len(),
        line >= 1,
    ensures
        scan_from(src, pos, line) matches Ok(tvs) ==> {
            &&& tvs.len() >= 1
            &&& tvs[tvs.len() - 1].token_type == TokenType::EOF
            &&& forall|i: int| 0 <= i < tvs.len() - 1 ==> (#[trigger] tvs[i]).token_type != TokenType::EOF
            &&& forall|i: int| 0 <= i < tvs.len() ==> (#[trigger] tvs[i]).wf()
        },
    decreases src.len() - pos,
{
    if pos >= src.len() {
        assert(eof_token(line).wf());
    } else {
        lemma_step_progress(src, pos, line);
        lemma_step_wf(src, pos, line);
        match step(src, pos, line) {
            Step::Tok(t, p2, l2) => {
                lemma_scan_from_wf(src, p2, l2);
                match scan_from(src, p2, l2) {
                    Ok(rest) => {
                        let tvs = seq![t] + rest;
                        assert(tvs[tvs.len() - 1] == rest[rest.len() - 1]);
                        assert(forall|i: int|
                            1 <= i < tvs.len() ==> #[trigger] tvs[i] == rest[i - 1]);
                        assert(tvs[0] == t);
                    },
                    Err(_) => {
                    },
                }
            },
            Step::Skip(p2, l2) => {
                lemma_scan_from_wf(src, p2, l2);
            },
            Step::Stop(_) => {
            },
        }
    }
}

/// Tokens already emitted, in front of the rest of a scan.
pub open spec fn prepend(ts: Seq<TokenV>, r: Result<Seq<TokenV>, LexError>) -> Result<
    Seq<TokenV>,
    LexError,
> {
    match r {
        Ok(rest) => Ok(ts + rest),
        Err(e) => Err(e),
    }
}

proof fn lemma_token_views_push(ts: Seq<Token>, t: Token)
    ensures
        token_views(ts.push(t)) == token_views(ts).push(t@),
{
    assert(token_views(ts.push(t)) =~= token_views(ts).push(t@));
}

/// Relies on String::push: appends exactly the given character.
#[verifier::external_body]
fn push_char(s: &mut String, c: char)
    ensures
        final(s)@ == old(s)@.push(c),
{
    s.push(c);
}

/// The lexer's working state: the characters, the tokens emitted so
/// far, and the three cursors.
pub struct Scanner {
    pub source: Vec<char>,
    pub tokens: Vec<Token>,
    pub start: usize,
    pub current: usize,
    pub line: i32,
}

impl Scanner {
    /// The source is short enough that line numbers fit the line field.
    pub open spec fn wf(self) -> bool {
        &&& self.source@.len() + 2 <= i32::MAX
        &&& self.current <= self.source@.len()
        &&& 1 <= self.line <= self.current + 1
    }

    pub open spec fn src(self) -> Seq<char> {
        self.source@
    }

    #[verifier::loop_isolation(false)]
    pub fn new(source: &str) -> (s: Scanner)
        requires
            source@.len() + 2 <= i32::MAX,
        ensures
            s.wf(),
            s.src() == source@,
            s.tokens@ =~= Seq::<Token>::empty(),
            s.current == 0,
            s.line == 1,
    {
        let n = source.unicode_len();
        let mut v: Vec<char> = Vec::new();
        let mut i: usize = 0;
        while i < n
            invariant
                i <= n,
                n == source@.len(),
                v@ == source@.subrange(0, i as int),
            decreases n - i,
        {
            let c = source.get_char(i);
            v.push(c);
            i = i + 1;
            proof {
                assert(v@ =~= source@.subrange(0, i as int));
            }
        }
        proof {
            assert(v@ =~= source@);
        }
        Scanner { source: v, tokens: Vec::new(), start: 0, current: 0, line: 1 }
    }

    /// The text of `source[a..b)` as a string.
    #[verifier::loop_isolation(false)]
    fn copy_range(&self, a: usize, b: usize) -> (r: String)
        requires
            a <= b <= self.source@.len(),
        ensures
            r@ == self.source@.subrange(a as int, b as int),
    {
        let mut out = String::new();
        let mut i: usize = a;
        proof {
            assert(out@ =~= self.source@.subrange(a as int, a as int));
        }
        while i < b
            invariant
                a <= i <= b <= self.source@.len(),
                out@ == self.source@.subrange(a as int, i as int),
            decreases b - i,
        {
            let c = self.source[i];
            push_char(&mut out, c);
            i = i + 1;
            proof {
                assert(out@ =~= self.source@.subrange(a as int, i as int));
            }
        }
        out
    }

    /// Emit a payload-free token spanning `start..current`.
    fn add_token(&mut self, tt: TokenType)
        requires
            old(self).start <= old(self).current <= old(self).source@.len(),
        ensures
            final(self).source@ == old(self).source@,
            final(self).start == old(self).start,
            final(self).current == old(self).current,
            final(self).line == old(self).line,
            token_views(final(self).tokens@) == token_views(old(self).tokens@).push(
                span_token(
                    tt,
                    old(self).source@,
                    old(self).start as int,
                    old(self).current as int,
                    old(self).line as int,
                ),
            ),
    {
        let lexeme = self.copy_range(self.start, self.current);
        let t = Token::new(tt, lexeme, Literal::Nil, self.line);
        let ghost before = self.tokens@;
        self.tokens.push(t);
        proof {
            lemma_token_views_push(before, t);
        }
    }

    /// Scan one operator that may be followed by `=`.
    fn two_char(&mut self, with_eq: TokenType, without: TokenType)
        requires
            old(self).wf(),
            1 <= old(self).current <= old(self).source@.len(),
            old(self).start == old(self).current - 1,
        ensures
            final(self).wf(),
            final(self).source@ == old(self).source@,
            final(self).line == old(self).line,
            match two_char_step(
                old(self).source@,
                old(self).start as int,
                old(self).line as int,
                with_eq,
                without,
            ) {
                Step::Tok(t, p2, l2) => final(self).current == p2 && final(self).line == l2
                    && token_views(final(self).tokens@) == token_views(old(self).tokens@).push(t),
                _ => false,
            },
    {
        if self.current < self.source.len() && self.source[self.current] == '=' {
            self.current = self.current + 1;
            self.add_token(with_eq);
        } else {
            self.add_token(without);
        }
    }

    /// Scan a string literal; the opening quote is already consumed.
    #[verifier::loop_isolation(false)]
    fn scan_string(&mut self) -> (r: Result<(), LexError>)
        requires
            old(self).wf(),
            1 <= old(self).current <= old(self).source@.len(),
            old(self).start == old(self).current - 1,
            old(self).source@[old(self).start as int] == '"',
            old(self).line <= old(self).start + 1,
        ensures
            final(self).wf(),
            final(self).source@ == old(self).source@,
            match string_step(old(self).source@, old(self).start as int, old(self).line as int) {
                Step::Tok(t, p2, l2) => r is Ok && final(self).current == p2 && final(self).line
                    == l2 && token_views(final(self).tokens@) == token_views(
                    old(self).tokens@,
                ).push(t),
                Step::Stop(e) => r == Err::<(), LexError>(e),
                _ => false,
            },
    {
        let ghost src = old(self).source@;
        let ghost pos = old(self).start as int;
        let ghost l0 = old(self).line as int;
        while self.current < self.source.len() && self.source[self.current] != '"'
            invariant
                self.source@ == src,
                self.tokens == old(self).tokens,
                self.start == old(self).start,
                src.len() + 2 <= i32::MAX,
                pos + 1 <= self.current <= src.len(),
                quote_end(src, pos + 1) == quote_end(src, self.current as int),
                self.line as int == l0 + newlines(src, pos + 1, self.current as int),
                1 <= self.line <= self.current,
            decreases src.len() - self.current,
        {
            proof {
                lemma_newlines_extend(src, pos + 1, self.current as int);
            }
            if self.source[self.current] == '\n' {
                self.line = self.line + 1;
            }
            self.current = self.current + 1;
        }
        proof {
            lemma_quote_end(src, pos + 1);
        }
        if self.current >= self.source.len() {
            Err(LexError::UnterminatedString { line: self.line })
        } else {
            self.current = self.current + 1;
            let value = self.copy_range(self.start + 1, self.current - 1);
            let lexeme = self.copy_range(self.start, self.current);
            let t = Token::new(TokenType::STRING, lexeme, Literal::Str(value), self.line);
            let ghost before = self.tokens@;
            self.tokens.push(t);
            proof {
                lemma_token_views_push(before, t);
            }
            Ok(())
        }
    }

    /// Scan a number literal; the first digit is already consumed.
    #[verifier::rlimit(60)]
    #[verifier::loop_isolation(false)]
    fn scan_number(&mut self) -> (r: Result<(), LexError>)
        requires
            old(self).wf(),
            1 <= old(self).current <= old(self).source@.len(),
            old(self).start == old(self).current - 1,
            is_digit_char(old(self).source@[old(self).start as int]),
        ensures
            final(self).wf(),
            final(self).source@ == old(self).source@,
            final(self).line == old(self).line,
            match number_step(old(self).source@, old(self).start as int, old(self).line as int) {
                Step::Tok(t, p2, l2) => r is Ok && final(self).current == p2 && token_views(
                    final(self).tokens@,
                ) == token_views(old(self).tokens@).push(t),
                Step::Stop(e) => r == Err::<(), LexError>(e),
                _ => false,
            },
    {
        let ghost src = old(self).source@;
        let ghost pos = old(self).start as int;
        while self.current < self.source.len() && digit_char_exec(self.source[self.current])
            invariant
                self.source@ == src,
                self.tokens == old(self).tokens,
                self.start == old(self).start,
                self.line == old(self).line,
                pos + 1 <= self.current <= src.len(),
                digits_end(src, pos) == digits_end(src, self.current as int),
            decreases src.len() - self.current,
        {
            self.current = self.current + 1;
        }
        let ie: usize = self.current;
        proof {
            assert(digits_end(src, pos) == ie as int);
            lemma_digits_end(src, pos);
        }
        let frac: bool = self.current + 1 < self.source.len() && self.source[self.current] == '.'
            && digit_char_exec(self.source[self.current + 1]);
        if frac {
            self.current = self.current + 1;
            while self.current < self.source.len() && digit_char_exec(self.source[self.current])
                invariant
                    self.source@ == src,
                    self.tokens == old(self).tokens,
                    self.start == old(self).start,
                    self.line == old(self).line,
                    ie + 1 <= self.current <= src.len(),
                    digits_end(src, ie + 1) == digits_end(src, self.current as int),
                decreases src.len() - self.current,
            {
                self.current = self.current + 1;
            }
            proof {
                assert(digits_end(src, ie + 1) == self.current as int);
                lemma_digits_end(src, ie + 1);
            }
        }
        let end_pos: usize = self.current;
        let ghost digits = number_digits(src, pos);
        proof {
            if frac {
                assert(digits == src.subrange(pos, ie as int) + src.subrange(
                    ie as int + 1,
                    end_pos as int,
                ));
            } else {
                assert(digits == src.subrange(pos, ie as int));
            }
            assert(all_digits(digits));
        }
        let mut acc: u128 = 0;
        let mut i: usize = self.start;
        proof {
            assert(src.subrange(pos, pos) =~= Seq::<char>::empty());
        }
        while i < ie
            invariant
                self.source@ == src,
                self.tokens == old(self).tokens,
                self.start == old(self).start,
                self.current == end_pos,
                pos + 1 <= end_pos <= src.len(),
                pos <= i <= ie <= src.len(),
                forall|k: int| pos <= k < ie ==> is_digit_char(#[trigger] src[k]),
                all_digits(digits),
                digits.len() >= ie - pos,
                digits.subrange(0, (ie - pos) as int) == src.subrange(pos, ie as int),
                acc == digits_val(src.subrange(pos, i as int)),
                acc <= 0x7fff_ffff_ffff_ffff,
                self.line == old(self).line,
            decreases ie - i,
        {
            let d: u32 = digit_val_exec(self.source[i]);
            let next: u128 = acc * 10 + (d as u128);
            proof {
                let p = src.subrange(pos, i as int);
                let p2 = src.subrange(pos, i as int + 1);
                assert(p2.drop_last() =~= p);
                assert(p2.last() == src[i as int]);
                assert(digits_val(p2) == next);
                if next > 0x7fff_ffff_ffff_ffff {
                    assert(p2 =~= digits.subrange(0, p2.len() as int));
                    lemma_digits_val_extend(p2, digits);
                }
            }
            if next > 0x7fff_ffff_ffff_ffffu128 {
                return Err(LexError::NumberTooLarge { line: self.line });
            }
            acc = next;
            i = i + 1;
        }
        if frac {
            let mut j: usize = ie + 1;
            proof {
                assert(src.subrange(ie as int + 1, ie as int + 1) =~= Seq::<char>::empty());
                assert(src.subrange(pos, ie as int) + src.subrange(ie as int + 1, ie as int + 1)
                    =~= src.subrange(pos, ie as int));
            }
            while j < end_pos
                invariant
                    self.source@ == src,
                    self.tokens == old(self).tokens,
                    self.start == old(self).start,
                    self.current == end_pos,
                    pos <= ie < ie + 1 <= j <= end_pos <= src.len(),
                    forall|k: int| ie + 1 <= k < end_pos ==> is_digit_char(#[trigger] src[k]),
                    all_digits(digits),
                    digits == src.subrange(pos, ie as int) + src.subrange(
                        ie as int + 1,
                        end_pos as int,
                    ),
                    acc == digits_val(
                        src.subrange(pos, ie as int) + src.subrange(ie as int + 1, j as int),
                    ),
                    acc <= 0x7fff_ffff_ffff_ffff,
                    self.line == old(self).line,
                decreases end_pos - j,
            {
                let d: u32 = digit_val_exec(self.source[j]);
                let next: u128 = acc * 10 + (d as u128);
                proof {
                    let p = src.subrange(pos, ie as int) + src.subrange(ie + 1, j as int);
                    let p2 = src.subrange(pos, ie as int) + src.subrange(ie + 1, j + 1);
                    assert(p2.drop_last() =~= p);
                    assert(p2.last() == src[j as int]);
                    assert(digits_val(p2) == next);
                    if next > 0x7fff_ffff_ffff_ffff {
                        assert(p2 =~= digits.subrange(0, p2.len() as int));
                        lemma_digits_val_extend(p2, digits);
                    }
                }
                if next > 0x7fff_ffff_ffff_ffffu128 {
                    return Err(LexError::NumberTooLarge { line: self.line });
                }
                acc = next;
                j = j + 1;
            }
            proof {
                assert(src.subrange(ie as int + 1, j as int) =~= src.subrange(
                    ie as int + 1,
                    end_pos as int,
                ));
            }
        }
        proof {
            assert(acc == digits_val(digits));
        }
        let fcount: usize = if frac {
            end_pos - (ie + 1)
        } else {
            0
        };
        if fcount > 18 {
            return Err(LexError::NumberTooLarge { line: self.line });
        }
        proof {
            lemma_canon(acc as int, fcount as nat);
        }
        let num = Number::from_digits(acc as u64, fcount as u32);
        let lexeme = self.copy_range(self.start, end_pos);
        let t = Token::new(TokenType::NUMBER, lexeme, Literal::Num(num), self.line);
        let ghost before = self.tokens@;
        self.tokens.push(t);
        proof {
            lemma_token_views_push(before, t);
        }
        Ok(())
    }

    /// Scan an identifier or keyword; the first character is already
    /// consumed.
    #[verifier::loop_isolation(false)]
    fn scan_identifier(&mut self)
        requires
            old(self).wf(),
            1 <= old(self).current <= old(self).source@.len(),
            old(self).start == old(self).current - 1,
            is_alpha_char(old(self).source@[old(self).start as int]),
        ensures
            final(self).wf(),
            final(self).source@ == old(self).source@,
            final(self).line == old(self).line,
            final(self).current == ident_end(old(self).source@, old(self).start as int),
            token_views(final(self).tokens@) == token_views(old(self).tokens@).push(
                TokenV {
                    token_type: keyword_or_ident(
                        old(self).source@.subrange(
                            old(self).start as int,
                            ident_end(old(self).source@, old(self).start as int),
                        ),
                    ),
                    lexeme: old(self).source@.subrange(
                        old(self).start as int,
                        ident_end(old(self).source@, old(self).start as int),
                    ),
                    literal: LiteralV::Nil,
                    line: old(self).line as int,
                },
            ),
    {
        let ghost src = old(self).source@;
        let ghost pos = old(self).start as int;
        while self.current < self.source.len() && ident_char_exec(self.source[self.current])
            invariant
                self.source@ == src,
                self.tokens == old(self).tokens,
                self.start == old(self).start,
                self.line == old(self).line,
                pos + 1 <= self.current <= src.len(),
                ident_end(src, pos) == ident_end(src, self.current as int),
            decreases src.len() - self.current,
        {
            self.current = self.current + 1;
        }
        let w = self.copy_range(self.start, self.current);
        let tt = Self::keyword(&w);
        let t = Token::new(tt, w, Literal::Nil, self.line);
        let ghost before = self.tokens@;
        self.tokens.push(t);
        proof {
            lemma_token_views_push(before, t);
        }
    }

    /// One lexing step, the mirror of `step`.
    #[verifier::loop_isolation(false)]
    fn scan_token(&mut self) -> (r: Result<(), LexError>)
        requires
            old(self).wf(),
            old(self).current < old(self).source@.len(),
        ensures
            final(self).wf(),
            final(self).source@ == old(self).source@,
            match step(old(self).source@, old(self).current as int, old(self).line as int) {
                Step::Tok(t, p2, l2) => r is Ok && final(self).current == p2 && final(self).line
                    == l2 && token_views(final(self).tokens@) == token_views(
                    old(self).tokens@,
                ).push(t),
                Step::Skip(p2, l2) => r is Ok && final(self).current == p2 && final(self).line
                    == l2 && final(self).tokens@ == old(self).tokens@,
                Step::Stop(e) => r == Err::<(), LexError>(e),
            },
    {
        let ghost src = old(self).source@;
        let ghost pos = old(self).current as int;
        self.start = self.current;
        let c = self.source[self.current];
        self.current = self.current + 1;
        match c {
            '(' => {
                self.add_token(TokenType::LEFT_PAREN);
                Ok(())
            },
            ')' => {
                self.add_token(TokenType::RIGHT_PAREN);
                Ok(())
            },
            '{' => {
                self.add_token(TokenType::LEFT_BRACE);
                Ok(())
            },
            '}' => {
                self.add_token(TokenType::RIGHT_BRACE);
                Ok(())
            },
            ',' => {
                self.add_token(TokenType::COMMA);
                Ok(())
            },
            '.' => {
                self.add_token(TokenType::DOT);
                Ok(())
            },
            '-' => {
                self.add_token(TokenType::MINUS);
                Ok(())
            },
            '+' => {
                self.add_token(TokenType::PLUS);
                Ok(())
            },
            ';' => {
                self.add_token(TokenType::SEMICOLON);
                Ok(())
            },
            '*' => {
                self.add_token(TokenType::STAR);
                Ok(())
            },
            '!' => {
                self.two_char(TokenType::BANG_EQUAL, TokenType::BANG);
                Ok(())
            },
            '=' => {
                self.two_char(TokenType::EQUAL_EQUAL, TokenType::EQUAL);
                Ok(())
            },
            '<' => {
                self.two_char(TokenType::LESS_EQUAL, TokenType::LESS);
                Ok(())
            },
            '>' => {
                self.two_char(TokenType::GREATER_EQUAL, TokenType::GREATER);
                Ok(())
            },
            '/' => {
                if self.current < self.source.len() && self.source[self.current] == '/' {
                    self.current = self.current + 1;
                    while self.current < self.source.len() && self.source[self.current] != '\n'
                        invariant
                            self.source@ == src,
                            self.tokens == old(self).tokens,
                            self.line == old(self).line,
                            pos + 2 <= self.current <= src.len(),
                            line_break(src, pos + 2) == line_break(src, self.current as int),
                            src.len() + 2 <= i32::MAX,
                            1 <= self.line <= pos + 1,
                        decreases src.len() - self.current,
                    {
                        self.current = self.current + 1;
                    }
                    Ok(())
                } else {
                    self.add_token(TokenType::SLASH);
                    Ok(())
                }
            },
            ' ' => Ok(()),
            '\r' => Ok(()),
            '\t' => Ok(()),
            '\n' => {
                self.line = self.line + 1;
                Ok(())
            },
            '"' => self.scan_string(),
            _ => {
                if digit_char_exec(c) {
                    self.scan_number()
                } else if alpha_char_exec(c) {
                    self.scan_identifier();
                    Ok(())
                } else {
                    Err(LexError::UnexpectedChar { ch: c, line: self.line })
                }
            },
        }
    }

    /// Scan the whole input: the token sequence ending in one EOF token,
    /// or the first lexing failure.
    #[verifier::loop_isolation(false)]
    pub fn scan_tokens(&mut self) -> (r: Result<Vec<Token>, LexError>)
        requires
            old(self).wf(),
            old(self).current == 0,
            old(self).line == 1,
            old(self).tokens@.len() == 0,
        ensures
            match r {
                Ok(toks) => scan_spec(old(self).src()) == Ok::<Seq<TokenV>, LexError>(
                    token_views(toks@),
                ) && crate::parser::wf_tokens(toks@),
                Err(e) => scan_spec(old(self).src()) == Err::<Seq<TokenV>, LexError>(e),
            },
    {
        let ghost src = old(self).source@;
        proof {
            assert(token_views(self.tokens@) =~= Seq::<TokenV>::empty());
            assert(prepend(
                token_views(self.tokens@),
                scan_from(src, 0, 1),
            ) == scan_from(src, 0, 1)) by {
                match scan_from(src, 0, 1) {
                    Ok(rest) => {
                        assert(token_views(self.tokens@) + rest =~= rest);
                    },
                    Err(_) => {},
                }
            }
        }
        while self.current < self.source.len()
            invariant
                self.wf(),
                self.source@ == src,
                scan_from(src, 0, 1) == prepend(
                    token_views(self.tokens@),
                    scan_from(src, self.current as int, self.line as int),
                ),
            decreases src.len() - self.current,
        {
            let ghost pre = *self;
            let res = self.scan_token();
            proof {
                lemma_step_progress(src, pre.current as int, pre.line as int);
            }
            match res {
                Ok(()) => {
                    proof {
                        match step(src, pre.current as int, pre.line as int) {
                            Step::Tok(t, p2, l2) => {
                                match scan_from(src, p2, l2) {
                                    Ok(rest) => {
                                        assert((token_views(pre.tokens@) + (seq![t] + rest)) =~= (
                                        token_views(pre.tokens@).push(t) + rest));
                                    },
                                    Err(_) => {},
                                }
                            },
                            Step::Skip(p2, l2) => {},
                            Step::Stop(e) => {},
                        }
                    }
                },
                Err(e) => {
                    return Err(e);
                },
            }
        }
        let t = Token::new(TokenType::EOF, String::new(), Literal::Nil, self.line);
        let ghost before = self.tokens@;
        self.tokens.push(t);
        proof {
            lemma_token_views_push(before, t);
            assert(t@.lexeme =~= Seq::<char>::empty());
            assert(t@ == eof_token(self.line as int));
            assert((token_views(before) + seq![eof_token(self.line as int)]) =~= token_views(
                self.tokens@,
            ));
        }
        let mut out: Vec<Token> = Vec::new();
        let mut i: usize = 0;
        let ghost toks = self.tokens@;
        proof {
            assert(out@ =~= toks.subrange(0, 0));
        }
        while i < self.tokens.len()
            invariant
                self.tokens@ == toks,
                i <= toks.len(),
                out@ == toks.subrange(0, i as int),
            decreases toks.len() - i,
        {
            let t2 = self.tokens[i].clone();
            out.push(t2);
            i = i + 1;
            proof {
                assert(out@ =~= toks.subrange(0, i as int));
            }
        }
        proof {
            assert(out@ =~= toks);
            lemma_scan_from_wf(src, 0, 1);
            let tvs = token_views(out@);
            assert(scan_from(src, 0, 1) == Ok::<Seq<TokenV>, LexError>(tvs));
            let tvs0 = scan_from(src, 0, 1)->Ok_0;
            assert(tvs0 == tvs);
            assert(forall|i: int| 0 <= i < out@.len() ==> #[trigger] tvs[i] == out@[i]@);
            assert(out@.len() == tvs.len());
            assert(out@[out@.len() - 1]@ == tvs[tvs.len() - 1]);
            assert(out@[out@.len() - 1].token_type == TokenType::EOF);
            assert forall|i: int| 0 <= i < out@.len() - 1 implies (#[trigger] out@[i]).token_type
                != TokenType::EOF by {
                assert(tvs[i] == out@[i]@);
            }
            assert forall|i: int| 0 <= i < out@.len() implies (#[trigger] out@[i])@.wf() by {
                assert(tvs[i] == out@[i]@);
            }
            assert(crate::parser::wf_tokens(out@));
        }
        Ok(out)
    }

    /// The keyword table lookup.
    fn keyword(w: &String) -> (r: TokenType)
        ensures
            r == keyword_or_ident(w@),
    {
        if w.eq(&"and".to_owned()) {
            TokenType::AND
        } else if w.eq(&"class".to_owned()) {
            TokenType::CLASS
        } else if w.eq(&"else".to_owned()) {
            TokenType::ELSE
        } else if w.eq(&"false".to_owned()) {
            TokenType::FALSE
        } else if w.eq(&"for".to_owned()) {
            TokenType::FOR
        } else if w.eq(&"fun".to_owned()) {
            TokenType::FUN
        } else if w.eq(&"if".to_owned()) {
            TokenType::IF
        } else if w.eq(&"nil".to_owned()) {
            TokenType::NIL
        } else if w.eq(&"or".to_owned()) {
            TokenType::OR
        } else if w.eq(&"print".to_owned()) {
            TokenType::PRINT
        } else if w.eq(&"return".to_owned()) {
            TokenType::RETURN
        } else if w.eq(&"super".to_owned()) {
            TokenType::SUPER
        } else if w.eq(&"this".to_owned()) {
            TokenType::THIS
        } else if w.eq(&"true".to_owned()) {
            TokenType::TRUE
        } else if w.eq(&"var".to_owned()) {
            TokenType::VAR
        } else if w.eq(&"while".to_owned()) {
            TokenType::WHILE
        } else {
            TokenType::IDENTIFIER
        }
    }
}

} // verus!

//! The parser: recursive descent over the token sequence, one function
//! per precedence level, lowest precedence outermost:
//! expression, equality, comparison, term, factor, unary, primary.
//!
//! The parse is specified by spec functions that mirror the descent.
//! Each takes a depth budget `d`; any `d` at least the number of tokens
//! left is enough, and the executable parser always has one.
use crate::expr::Expr;
use crate::token_type::{Literal, Token, TokenType};
use vstd::prelude::*;

verus! {

/// A syntax failure: what was expected, and the offending token.
#[derive(Debug, PartialEq, Eq, Clone, Copy, Structural)]
pub struct ParseError {
    pub kind: ParseErrorKind,
    pub found: TokenType,
    pub line: i32,
}

#[derive(Debug, PartialEq, Eq, Clone, Copy, Structural)]
pub enum ParseErrorKind {
    /// A parenthesized expression misses its closing parenthesis.
    ExpectedRightParen,
    /// No primary expression begins at this token.
    ExpectedExpression,
}

/// The token sequence a parser consumes: one EOF token, at the end,
/// and canonical literal payloads.
pub open spec fn wf_tokens(ts: Seq<Token>) -> bool {
    &&& ts.len() >= 1
    &&& ts[ts.len() - 1].token_type == TokenType::EOF
    &&& forall|i: int| 0 <= i < ts.len() - 1 ==> (#[trigger] ts[i]).token_type != TokenType::EOF
    &&& forall|i: int| 0 <= i < ts.len() ==> (#[trigger] ts[i])@.wf()
}

/// Tokens left from `pos`, as a termination measure.
pub open spec fn left(ts: Seq<Token>, pos: int) -> int {
    if pos <= ts.len() {
        ts.len() - pos
    } else {
        0
    }
}

pub open spec fn err_at(ts: Seq<Token>, pos: int, kind: ParseErrorKind) -> ParseError {
    if 0 <= pos < ts.len() {
        ParseError { kind, found: ts[pos].token_type, line: ts[pos].line }
    } else {
        ParseError { kind, found: TokenType::EOF, line: 0 }
    }
}

pub open spec fn is_equality_op(tt: TokenType) -> bool {
    tt == TokenType::BANG_EQUAL || tt == TokenType::EQUAL_EQUAL
}

pub open spec fn is_comparison_op(tt: TokenType) -> bool {
    tt == TokenType::GREATER || tt == TokenType::GREATER_EQUAL || tt == TokenType::LESS
        || tt == TokenType::LESS_EQUAL
}

pub open spec fn is_term_op(tt: TokenType) -> bool {
    tt == TokenType::MINUS || tt == TokenType::PLUS
}

pub open spec fn is_factor_op(tt: TokenType) -> bool {
    tt == TokenType::SLASH || tt == TokenType::STAR
}

/// The whole expression grammar, lowest precedence level.
pub open spec fn sp_expression(ts: Seq<Token>, pos: int, d: nat) -> Result<(Expr, int), ParseError>
    decreases d, left(ts, pos), 13int,
{
    sp_equality(ts, pos, d)
}

pub open spec fn sp_equality(ts: Seq<Token>, pos: int, d: nat) -> Result<(Expr, int), ParseError>
    decreases d, left(ts, pos), 12int,
{
    match sp_comparison(ts, pos, d) {
        Err(e) => Err(e),
        Ok((e1, p1)) => sp_eq_rest(
            ts,
            e1,
            if p1 >= pos {
                p1
            } else {
                pos
            },
            d,
        ),
    }
}

/// Left-associative fold over the equality operators.
pub open spec fn sp_eq_rest(ts: Seq<Token>, e: Expr, pos: int, d: nat) -> Result<
    (Expr, int),
    ParseError,
>
    decreases d, left(ts, pos), 11int,
{
    if 0 <= pos < ts.len() && is_equality_op(ts[pos].token_type) {
        match sp_comparison(ts, pos + 1, d) {
            Err(e2) => Err(e2),
            Ok((rhs, p2)) => sp_eq_rest(
                ts,
                Expr::Binary { left: Box::new(e), operator: ts[pos], right: Box::new(rhs) },
                if p2 >= pos + 1 {
                    p2
                } else {
                    pos + 1
                },
                d,
            ),
        }
    } else {
        Ok((e, pos))
    }
}

pub open spec fn sp_comparison(ts: Seq<Token>, pos: int, d: nat) -> Result<(Expr, int), ParseError>
    decreases d, left(ts, pos), 10int,
{
    match sp_term(ts, pos, d) {
        Err(e) => Err(e),
        Ok((e1, p1)) => sp_cmp_rest(
            ts,
            e1,
            if p1 >= pos {
                p1
            } else {
                pos
            },
            d,
        ),
    }
}

/// Left-associative fold over the comparison operators.
pub open spec fn sp_cmp_rest(ts: Seq<Token>, e: Expr, pos: int, d: nat) -> Result<
    (Expr, int),
    ParseError,
>
    decreases d, left(ts, pos), 9int,
{
    if 0 <= pos < ts.len() && is_comparison_op(ts[pos].token_type) {
        match sp_term(ts, pos + 1, d) {
            Err(e2) => Err(e2),
            Ok((rhs, p2)) => sp_cmp_rest(
                ts,
                Expr::Binary { left: Box::new(e), operator: ts[pos], right: Box::new(rhs) },
                if p2 >= pos + 1 {
                    p2
                } else {
                    pos + 1
                },
                d,
            ),
        }
    } else {
        Ok((e, pos))
    }
}

pub open spec fn sp_term(ts: Seq<Token>, pos: int, d: nat) -> Result<(Expr, int), ParseError>
    decreases d, left(ts, pos), 8int,
{
    match sp_factor(ts, pos, d) {
        Err(e) => Err(e),
        Ok((e1, p1)) => sp_term_rest(
            ts,
            e1,
            if p1 >= pos {
                p1
            } else {
                pos
            },
            d,
        ),
    }
}

/// Left-associative fold over `-` and `+`.
pub open spec fn sp_term_rest(ts: Seq<Token>, e: Expr, pos: int, d: nat) -> Result<
    (Expr, int),
    ParseError,
>
    decreases d, left(ts, pos), 7int,
{
    if 0 <= pos < ts.len() && is_term_op(ts[pos].token_type) {
        match sp_factor(ts, pos + 1, d) {
            Err(e2) => Err(e2),
            Ok((rhs, p2)) => sp_term_rest(
                ts,
                Expr::Binary { left: Box::new(e), operator: ts[pos], right: Box::new(rhs) },
                if p2 >= pos + 1 {
                    p2
                } else {
                    pos + 1
                },
                d,
            ),
        }
    } else {
        Ok((e, pos))
    }
}

pub open spec fn sp_factor(ts: Seq<Token>, pos: int, d: nat) -> Result<(Expr, int), ParseError>
    decreases d, left(ts, pos), 6int,
{
    match sp_unary(ts, pos, d) {
        Err(e) => Err(e),
        Ok((e1, p1)) => sp_factor_rest(
            ts,
            e1,
            if p1 >= pos {
                p1
            } else {
                pos
            },
            d,
        ),
    }
}

/// Left-associative fold over `/` and `*`.
pub open spec fn sp_factor_rest(ts: Seq<Token>, e: Expr, pos: int, d: nat) -> Result<
    (Expr, int),
    ParseError,
>
    decreases d, left(ts, pos), 5int,
{
    if 0 <= pos < ts.len() && is_factor_op(ts[pos].token_type) {
        match sp_unary(ts, pos + 1, d) {
            Err(e2) => Err(e2),
            Ok((rhs, p2)) => sp_factor_rest(
                ts,
                Expr::Binary { left: Box::new(e), operator: ts[pos], right: Box::new(rhs) },
                if p2 >= pos + 1 {
                    p2
                } else {
                    pos + 1
                },
                d,
            ),
        }
    } else {
        Ok((e, pos))
    }
}

/// Right-recursive prefix operators `!` and `-`.
pub open spec fn sp_unary(ts: Seq<Token>, pos: int, d: nat) -> Result<(Expr, int), ParseError>
    decreases d, left(ts, pos), 4int,
{
    if 0 <= pos < ts.len() && (ts[pos].token_type == TokenType::BANG || ts[pos].token_type
        == TokenType::MINUS) {
        match sp_unary(ts, pos + 1, d) {
            Err(e) => Err(e),
            Ok((rhs, p)) => Ok(
                (Expr::Unary { operator: ts[pos], right: Box::new(rhs) }, p),
            ),
        }
    } else {
        sp_primary(ts, pos, d)
    }
}

/// Literals, and a parenthesized subexpression.
pub open spec fn sp_primary(ts: Seq<Token>, pos: int, d: nat) -> Result<(Expr, int), ParseError>
    decreases d, left(ts, pos), 3int,
{
    if 0 <= pos < ts.len() {
        let tt = ts[pos].token_type;
        if tt == TokenType::FALSE {
            Ok((Expr::Literal { value: Literal::Bool(false) }, pos + 1))
        } else if tt == TokenType::TRUE {
            Ok((Expr::Literal { value: Literal::Bool(true) }, pos + 1))
        } else if tt == TokenType::NIL {
            Ok((Expr::Literal { value: Literal::Nil }, pos + 1))
        } else if tt == TokenType::NUMBER || tt == TokenType::STRING {
            Ok((Expr::Literal { value: ts[pos].literal }, pos + 1))
        } else if tt == TokenType::LEFT_PAREN {
            if d == 0 {
                Err(err_at(ts, pos, ParseErrorKind::ExpectedExpression))
            } else {
                match sp_expression(ts, pos + 1, (d - 1) as nat) {
                    Err(e) => Err(e),
                    Ok((inner, p1)) => if 0 <= p1 < ts.len() && ts[p1].token_type
                        == TokenType::RIGHT_PAREN {
                        Ok((Expr::Grouping { expression: Box::new(inner) }, p1 + 1))
                    } else {
                        Err(err_at(ts, p1, ParseErrorKind::ExpectedRightParen))
                    },
                }
            }
        } else {
            Err(err_at(ts, pos, ParseErrorKind::ExpectedExpression))
        }
    } else {
        Err(err_at(ts, pos, ParseErrorKind::ExpectedExpression))
    }
}

/// The parse of a whole token sequence from a position: the token count
/// is always a sufficient depth budget.
pub open spec fn parse_spec_at(ts: Seq<Token>, pos: int) -> Result<(Expr, int), ParseError> {
    sp_expression(ts, pos, ts.len())
}

/// The parse of a whole token sequence.
pub open spec fn parse_spec(ts: Seq<Token>) -> Result<Expr, ParseError> {
    match parse_spec_at(ts, 0) {
        Ok((e, p)) => Ok(e),
        Err(pe) => Err(pe),
    }
}

/// Where synchronization lands after an error: just past a semicolon,
/// at a token that begins a statement, or at the end of input.
pub open spec fn sync_from(ts: Seq<Token>, pos: int) -> int
    decreases left(ts, pos),
{
    if !(1 <= pos < ts.len()) {
        pos
    } else if pos == ts.len() - 1 {
        pos
    } else if ts[pos - 1].token_type == TokenType::SEMICOLON {
        pos
    } else if begins_statement(ts[pos].token_type) {
        pos
    } else {
        sync_from(ts, pos + 1)
    }
}

pub open spec fn begins_statement(tt: TokenType) -> bool {
    tt == TokenType::CLASS || tt == TokenType::FUN || tt == TokenType::VAR || tt == TokenType::FOR
        || tt == TokenType::IF || tt == TokenType::WHILE || tt == TokenType::PRINT || tt
        == TokenType::RETURN
}

/// The parser's state: the token sequence and a cursor.
pub struct Parser {
    pub tokens: Vec<Token>,
    pub current: usize,
}

impl Parser {
    /// The cursor never passes the EOF token.
    pub open spec fn inv(self) -> bool {
        wf_tokens(self.tokens@) && self.current < self.tokens@.len()
    }

    pub fn new(tokens: Vec<Token>) -> (p: Parser)
        requires
            wf_tokens(tokens@),
        ensures
            p.inv(),
            p.tokens@ == tokens@,
            p.current == 0,
    {
        Parser { tokens, current: 0 }
    }

    /// The kind of the token under the cursor.
    fn peek_type(&self) -> (tt: TokenType)
        requires
            self.inv(),
        ensures
            tt == self.tokens@[self.current as int].token_type,
    {
        self.tokens[self.current].token_type
    }

    /// Consume the token under the cursor and hand back a copy of it.
    /// The cursor stays on EOF rather than passing it.
    fn take(&mut self) -> (t: Token)
        requires
            old(self).inv(),
            old(self).tokens@[old(self).current as int].token_type != TokenType::EOF,
        ensures
            final(self).inv(),
            final(self).tokens@ == old(self).tokens@,
            final(self).current == old(self).current + 1,
            t == old(self).tokens@[old(self).current as int],
    {
        let limit = self.tokens.len();
        proof {
            assert(self.current < limit - 1);
        }
        let t = self.tokens[self.current].clone();
        self.current = self.current + 1;
        t
    }

    /// Parse one expression at the cursor.
    pub fn parse(&mut self) -> (r: Result<Expr, ParseError>)
        requires
            old(self).inv(),
        ensures
            final(self).inv(),
            final(self).tokens@ == old(self).tokens@,
            final(self).current >= old(self).current,
            match sp_expression(old(self).tokens@, old(self).current as int, old(
                self,
            ).tokens@.len()) {
                Ok((e, p)) => r == Ok::<Expr, ParseError>(e) && final(self).current == p,
                Err(pe) => r == Err::<Expr, ParseError>(pe),
            },
    {
        self.expression(Ghost(self.tokens@.len()))
    }

    fn expression(&mut self, Ghost(d): Ghost<nat>) -> (r: Result<Expr, ParseError>)
        requires
            old(self).inv(),
            d >= old(self).tokens@.len() - old(self).current,
        ensures
            final(self).inv(),
            final(self).tokens@ == old(self).tokens@,
            final(self).current >= old(self).current,
            match sp_expression(old(self).tokens@, old(self).current as int, d) {
                Ok((e, p)) => r == Ok::<Expr, ParseError>(e) && final(self).current == p,
                Err(pe) => r == Err::<Expr, ParseError>(pe),
            },
        decreases d, left(old(self).tokens@, old(self).current as int), 13int,
    {
        self.equality(Ghost(d))
    }

    #[verifier::loop_isolation(false)]
    fn equality(&mut self, Ghost(d): Ghost<nat>) -> (r: Result<Expr, ParseError>)
        requires
            old(self).inv(),
            d >= old(self).tokens@.len() - old(self).current,
        ensures
            final(self).inv(),
            final(self).tokens@ == old(self).tokens@,
            final(self).current >= old(self).current,
            match sp_equality(old(self).tokens@, old(self).current as int, d) {
                Ok((e, p)) => r == Ok::<Expr, ParseError>(e) && final(self).current == p,
                Err(pe) => r == Err::<Expr, ParseError>(pe),
            },
        decreases d, left(old(self).tokens@, old(self).current as int), 12int,
    {
        let ghost ts = old(self).tokens@;
        let ghost pos0 = old(self).current as int;
        let mut expr = match self.comparison(Ghost(d)) {
            Ok(e) => e,
            Err(pe) => {
                return Err(pe);
            },
        };
        while self.peek_type() == TokenType::BANG_EQUAL || self.peek_type()
            == TokenType::EQUAL_EQUAL
            invariant
                self.inv(),
                self.tokens@ == ts,
                self.current >= pos0,
                sp_equality(ts, pos0, d) == sp_eq_rest(ts, expr, self.current as int, d),
            decreases ts.len() - self.current,
        {
            let operator = self.take();
            let right = match self.comparison(Ghost(d)) {
                Ok(e) => e,
                Err(pe) => {
                    return Err(pe);
                },
            };
            expr = Expr::Binary { left: Box::new(expr), operator, right: Box::new(right) };
        }
        Ok(expr)
    }

    #[verifier::loop_isolation(false)]
    fn comparison(&mut self, Ghost(d): Ghost<nat>) -> (r: Result<Expr, ParseError>)
        requires
            old(self).inv(),
            d >= old(self).tokens@.len() - old(self).current,
        ensures
            final(self).inv(),
            final(self).tokens@ == old(self).tokens@,
            final(self).current >= old(self).current,
            match sp_comparison(old(self).tokens@, old(self).current as int, d) {
                Ok((e, p)) => r == Ok::<Expr, ParseError>(e) && final(self).current == p,
                Err(pe) => r == Err::<Expr, ParseError>(pe),
            },
        decreases d, left(old(self).tokens@, old(self).current as int), 10int,
    {
        let ghost ts = old(self).tokens@;
        let ghost pos0 = old(self).current as int;
        let mut expr = match self.term(Ghost(d)) {
            Ok(e) => e,
            Err(pe) => {
                return Err(pe);
            },
        };
        while self.peek_type() == TokenType::GREATER || self.peek_type()
            == TokenType::GREATER_EQUAL || self.peek_type() == TokenType::LESS || self.peek_type()
            == TokenType::LESS_EQUAL
            invariant
                self.inv(),
                self.tokens@ == ts,
                self.current >= pos0,
                sp_comparison(ts, pos0, d) == sp_cmp_rest(ts, expr, self.current as int, d),
            decreases ts.len() - self.current,
        {
            let operator = self.take();
            let right = match self.term(Ghost(d)) {
                Ok(e) => e,
                Err(pe) => {
                    return Err(pe);
                },
            };
            expr = Expr::Binary { left: Box::new(expr), operator, right: Box::new(right) };
        }
        Ok(expr)
    }

    #[verifier::loop_isolation(false)]
    fn term(&mut self, Ghost(d): Ghost<nat>) -> (r: Result<Expr, ParseError>)
        requires
            old(self).inv(),
            d >= old(self).tokens@.len() - old(self).current,
        ensures
            final(self).inv(),
            final(self).tokens@ == old(self).tokens@,
            final(self).current >= old(self).current,
            match sp_term(old(self).tokens@, old(self).current as int, d) {
                Ok((e, p)) => r == Ok::<Expr, ParseError>(e) && final(self).current == p,
                Err(pe) => r == Err::<Expr, ParseError>(pe),
            },
        decreases d, left(old(self).tokens@, old(self).current as int), 8int,
    {
        let ghost ts = old(self).tokens@;
        let ghost pos0 = old(self).current as int;
        let mut expr = match self.factor(Ghost(d)) {
            Ok(e) => e,
            Err(pe) => {
                return Err(pe);
            },
        };
        while self.peek_type() == TokenType::MINUS || self.peek_type() == TokenType::PLUS
            invariant
                self.inv(),
                self.tokens@ == ts,
                self.current >= pos0,
                sp_term(ts, pos0, d) == sp_term_rest(ts, expr, self.current as int, d),
            decreases ts.len() - self.current,
        {
            let operator = self.take();
            let right = match self.factor(Ghost(d)) {
                Ok(e) => e,
                Err(pe) => {
                    return Err(pe);
                },
            };
            expr = Expr::Binary { left: Box::new(expr), operator, right: Box::new(right) };
        }
        Ok(expr)
    }

    #[verifier::loop_isolation(false)]
    fn factor(&mut self, Ghost(d): Ghost<nat>) -> (r: Result<Expr, ParseError>)
        requires
            old(self).inv(),
            d >= old(self).tokens@.len() - old(self).current,
        ensures
            final(self).inv(),
            final(self).tokens@ == old(self).tokens@,
            final(self).current >= old(self).current,
            match sp_factor(old(self).tokens@, old(self).current as int, d) {
                Ok((e, p)) => r == Ok::<Expr, ParseError>(e) && final(self).current == p,
                Err(pe) => r == Err::<Expr, ParseError>(pe),
            },
        decreases d, left(old(self).tokens@, old(self).current as int), 6int,
    {
        let ghost ts = old(self).tokens@;
        let ghost pos0 = old(self).current as int;
        let mut expr = match self.unary(Ghost(d)) {
            Ok(e) => e,
            Err(pe) => {
                return Err(pe);
            },
        };
        while self.peek_type() == TokenType::SLASH || self.peek_type() == TokenType::STAR
            invariant
                self.inv(),
                self.tokens@ == ts,
                self.current >= pos0,
                sp_factor(ts, pos0, d) == sp_factor_rest(ts, expr, self.current as int, d),
            decreases ts.len() - self.current,
        {
            let operator = self.take();
            let right = match self.unary(Ghost(d)) {
                Ok(e) => e,
                Err(pe) => {
                    return Err(pe);
                },
            };
            expr = Expr::Binary { left: Box::new(expr), operator, right: Box::new(right) };
        }
        Ok(expr)
    }

    fn unary(&mut self, Ghost(d): Ghost<nat>) -> (r: Result<Expr, ParseError>)
        requires
            old(self).inv(),
            d >= old(self).tokens@.len() - old(self).current,
        ensures
            final(self).inv(),
            final(self).tokens@ == old(self).tokens@,
            final(self).current >= old(self).current,
            match sp_unary(old(self).tokens@, old(self).current as int, d) {
                Ok((e, p)) => r == Ok::<Expr, ParseError>(e) && final(self).current == p,
                Err(pe) => r == Err::<Expr, ParseError>(pe),
            },
        decreases d, left(old(self).tokens@, old(self).current as int), 4int,
    {
        let tt = self.peek_type();
        if tt == TokenType::BANG || tt == TokenType::MINUS {
            let operator = self.take();
            let right = match self.unary(Ghost(d)) {
                Ok(e) => e,
                Err(pe) => {
                    return Err(pe);
                },
            };
            Ok(Expr::Unary { operator, right: Box::new(right) })
        } else {
            self.primary(Ghost(d))
        }
    }

    fn primary(&mut self, Ghost(d): Ghost<nat>) -> (r: Result<Expr, ParseError>)
        requires
            old(self).inv(),
            d >= old(self).tokens@.len() - old(self).current,
        ensures
            final(self).inv(),
            final(self).tokens@ == old(self).tokens@,
            final(self).current >= old(self).current,
            match sp_primary(old(self).tokens@, old(self).current as int, d) {
                Ok((e, p)) => r == Ok::<Expr, ParseError>(e) && final(self).current == p,
                Err(pe) => r == Err::<Expr, ParseError>(pe),
            },
        decreases d, left(old(self).tokens@, old(self).current as int), 3int,
    {
        let tt = self.peek_type();
        if tt == TokenType::FALSE {
            let _ = self.take();
            Ok(Expr::Literal { value: Literal::Bool(false) })
        } else if tt == TokenType::TRUE {
            let _ = self.take();
            Ok(Expr::Literal { value: Literal::Bool(true) })
        } else if tt == TokenType::NIL {
            let _ = self.take();
            Ok(Expr::Literal { value: Literal::Nil })
        } else if tt == TokenType::NUMBER || tt == TokenType::STRING {
            let t = self.take();
            Ok(Expr::Literal { value: t.literal })
        } else if tt == TokenType::LEFT_PAREN {
            let _ = self.take();
            proof {
                assert(d >= 1);
            }
            let inner = match self.expression(Ghost((d - 1) as nat)) {
                Ok(e) => e,
                Err(pe) => {
                    return Err(pe);
                },
            };
            if self.peek_type() == TokenType::RIGHT_PAREN {
                let _ = self.take();
                Ok(Expr::Grouping { expression: Box::new(inner) })
            } else {
                let pe = ParseError {
                    kind: ParseErrorKind::ExpectedRightParen,
                    found: self.peek_type(),
                    line: self.tokens[self.current].line,
                };
                Err(pe)
            }
        } else {
            let pe = ParseError {
                kind: ParseErrorKind::ExpectedExpression,
                found: tt,
                line: self.tokens[self.current].line,
            };
            Err(pe)
        }
    }

    /// Discard tokens to a safe statement boundary, so that one
    /// malformed statement does not spoil the next.
    #[verifier::loop_isolation(false)]
    pub fn synchronize(&mut self)
        requires
            old(self).inv(),
        ensures
            final(self).inv(),
            final(self).tokens@ == old(self).tokens@,
            final(self).current as int == sync_from(
                old(self).tokens@,
                if old(self).current + 1 < old(self).tokens@.len() {
                    old(self).current + 1
                } else {
                    old(self).current as int
                },
            ),
    {
        let ghost ts = old(self).tokens@;
        if self.current < self.tokens.len() - 1 {
            self.current = self.current + 1;
        }
        while !(self.peek_type() == TokenType::EOF)
            invariant
                self.inv(),
                self.tokens@ == ts,
                1 <= self.current || self.current == old(self).current,
                sync_from(
                    ts,
                    if old(self).current + 1 < ts.len() {
                        old(self).current + 1
                    } else {
                        old(self).current as int
                    },
                ) == sync_from(ts, self.current as int),
            decreases ts.len() - self.current,
        {
            if self.current >= 1 && self.tokens[self.current - 1].token_type
                == TokenType::SEMICOLON {
                return ;
            }
            let tt = self.peek_type();
            if tt == TokenType::CLASS || tt == TokenType::FUN || tt == TokenType::VAR || tt
                == TokenType::FOR || tt == TokenType::IF || tt == TokenType::WHILE || tt
                == TokenType::PRINT || tt == TokenType::RETURN {
                return ;
            }
            self.current = self.current + 1;
        }
    }
}

} // verus!

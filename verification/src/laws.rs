//! Laws of the library that tie several components together, proved
//! once and for all inputs.
use crate::chars::{is_alpha_char, is_digit_char, pow10};
use crate::expr::Expr;
use crate::interpret::{eval_expr, lit_eq};
use crate::token_type::LiteralV;
use crate::number::{lemma_value_unique, Number};
use crate::scanner::{span_token, step, Step};
use crate::token_type::{Token, TokenType};

use vstd::prelude::*;

verus! {

/// Two canonical numbers are structurally equal exactly when they
/// denote the same rational value; the evaluator's equality on numbers
/// is therefore value equality.
pub proof fn lemma_num_eq_is_value_eq(x: Number, y: Number)
    requires
        x.inv(),
        y.inv(),
    ensures
        lit_eq(LiteralV::Num(x), LiteralV::Num(y)) <==> x.same_value(y),
{
    if x.same_value(y) {
        lemma_value_unique(x, y);
    }
}

/// A token of fixed width consumes exactly its characters and never
/// advances the line counter: each single-character token moves the
/// scan by one, each two-character operator by two, and the line after
/// the step is the line before it.
pub proof fn lemma_fixed_width_tokens(src: Seq<char>, pos: int, line: int)
    requires
        0 <= pos < src.len(),
    ensures
        one_char_kind(src[pos]) is Some ==> step(src, pos, line) == Step::Tok(
            span_token(one_char_kind(src[pos])->Some_0, src, pos, pos + 1, line),
            pos + 1,
            line,
        ),
        two_char_kind(src[pos]) is Some && pos + 1 < src.len() && src[pos + 1] == '=' ==> step(
            src,
            pos,
            line,
        ) == Step::Tok(
            span_token(two_char_kind(src[pos])->Some_0, src, pos, pos + 2, line),
            pos + 2,
            line,
        ),
        two_char_kind(src[pos]) is Some && !(pos + 1 < src.len() && src[pos + 1] == '=') ==> step(
            src,
            pos,
            line,
        ) == Step::Tok(
            span_token(bare_kind(src[pos]), src, pos, pos + 1, line),
            pos + 1,
            line,
        ),
        src[pos] == '/' && !(pos + 1 < src.len() && src[pos + 1] == '/') ==> step(src, pos, line)
            == Step::Tok(span_token(TokenType::SLASH, src, pos, pos + 1, line), pos + 1, line),
{
}

/// A digit run with a known right end has that end.
proof fn lemma_digits_end_determined(src: Seq<char>, pos: int, b: int)
    requires
        0 <= pos <= b <= src.len(),
        forall|i: int| pos <= i < b ==> is_digit_char(#[trigger] src[i]),
        b == src.len() || !is_digit_char(src[b]),
    ensures
        crate::scanner::digits_end(src, pos) == b,
    decreases b - pos,
{
    if pos < b {
        lemma_digits_end_determined(src, pos + 1, b);
    }
}

/// An identifier run with a known right end has that end.
proof fn lemma_ident_end_determined(src: Seq<char>, pos: int, b: int)
    requires
        0 <= pos <= b <= src.len(),
        forall|i: int| pos <= i < b ==> crate::chars::is_ident_char(#[trigger] src[i]),
        b == src.len() || !crate::chars::is_ident_char(src[b]),
    ensures
        crate::scanner::ident_end(src, pos) == b,
    decreases b - pos,
{
    if pos < b {
        lemma_ident_end_determined(src, pos + 1, b);
    }
}

/// Scanning the canonical text of a nonnegative number from `pos`
/// yields exactly that number and then the end of input.
proof fn lemma_scan_number_text(src: Seq<char>, pos: int, line: int, n: Number)
    requires
        n.inv(),
        n.mantissa >= 0,
        0 <= pos <= src.len(),
        src.subrange(pos, src.len() as int) == crate::number::number_text(n),
    ensures
        crate::scanner::scan_from(src, pos, line) == Ok::<Seq<crate::token_type::TokenV>, crate::scanner::LexError>(
            seq![
                crate::token_type::TokenV {
                    token_type: TokenType::NUMBER,
                    lexeme: src.subrange(pos, src.len() as int),
                    literal: LiteralV::Num(n),
                    line,
                },
                crate::scanner::eof_token(line),
            ],
        ),
{
    let len = src.len() as int;
    let text = crate::number::number_text(n);
    let mag = n.mantissa as nat;
    let s = n.scale as nat;
    crate::chars::lemma_pow10_pos(s);
    let p10 = pow10(s);
    let ip = (mag as int / p10) as nat;
    let fp = (mag as int % p10) as nat;
    vstd::arithmetic::div_mod::lemma_fundamental_div_mod(mag as int, p10);
    crate::chars::lemma_dec_digits(if s == 0 {
        mag
    } else {
        ip
    });
    let ipd = crate::chars::dec_digits(
        if s == 0 {
            mag
        } else {
            ip
        },
    );
    let ie = pos + ipd.len();
    assert(text.len() == len - pos);
    if s == 0 {
        assert(text =~= ipd);
        assert forall|i: int| pos <= i < ie implies is_digit_char(#[trigger] src[i]) by {
            assert(src.subrange(pos, len)[i - pos] == src[i]);
            assert(text[i - pos] == ipd[i - pos]);
        }
        lemma_digits_end_determined(src, pos, ie);
        assert(ie == len);
        assert(crate::scanner::number_end(src, pos) == len);
        assert(crate::scanner::number_frac(src, pos) == 0);
        assert(crate::scanner::number_digits(src, pos) =~= ipd);
        assert(crate::chars::digits_val(crate::scanner::number_digits(src, pos)) == mag);
        assert(mag <= crate::number::max_mantissa());
        crate::number::lemma_canon_fixpoint(mag as int, 0);
        assert(crate::number::norm_num(mag as int, 0) == n);
    } else {
        assert(fp < p10);
        crate::chars::lemma_dec_digits_fixed(fp, s);
        let fpd = crate::chars::dec_digits_fixed(fp, s);
        assert(text =~= ipd + seq!['.'] + fpd);
        assert(text.len() == ipd.len() + 1 + s);
        assert forall|i: int| pos <= i < ie implies is_digit_char(#[trigger] src[i]) by {
            assert(src.subrange(pos, len)[i - pos] == src[i]);
            assert(text[i - pos] == ipd[i - pos]);
        }
        assert(src.subrange(pos, len)[ie - pos] == src[ie]);
        assert(text[ie - pos] == '.');
        assert(src[ie] == '.');
        assert(!is_digit_char('.'));
        lemma_digits_end_determined(src, pos, ie);
        assert forall|i: int| ie + 1 <= i < len implies is_digit_char(#[trigger] src[i]) by {
            assert(src.subrange(pos, len)[i - pos] == src[i]);
            assert(text[i - pos] == fpd[i - pos - (ie - pos) - 1]);
        }
        assert(is_digit_char(src[ie + 1]));
        lemma_digits_end_determined(src, ie + 1, len);
        assert(crate::scanner::number_end(src, pos) == len);
        assert(crate::scanner::number_frac(src, pos) == s);
        let nd = crate::scanner::number_digits(src, pos);
        assert(nd.len() == ipd.len() + s);
        assert forall|k: int| 0 <= k < nd.len() implies nd[k] == (ipd + fpd)[k] by {
            if k < ipd.len() {
                assert(nd[k] == src.subrange(pos, ie)[k]);
                assert(src.subrange(pos, ie)[k] == src[pos + k]);
                assert(src.subrange(pos, len)[k] == src[pos + k]);
                assert(text[k] == ipd[k]);
            } else {
                let j = k - ipd.len();
                assert(nd[k] == src.subrange(ie + 1, len)[j]);
                assert(src.subrange(ie + 1, len)[j] == src[ie + 1 + j]);
                assert(src.subrange(pos, len)[ie + 1 + j - pos] == src[ie + 1 + j]);
                assert(text[ie + 1 + j - pos] == fpd[j]);
            }
        }
        assert(nd =~= ipd + fpd);
        crate::chars::lemma_digits_val_append(ipd, fpd);
        assert(crate::chars::digits_val(nd) == ip * p10 + fp);
        assert(ip * p10 + fp == mag);
        assert(mag <= crate::number::max_mantissa());
        assert(n.mantissa % 10 != 0);
        crate::number::lemma_canon_fixpoint(mag as int, s);
        assert(crate::number::norm_num(mag as int, s) == n);
    }
    assert(is_digit_char(src[pos]));
    let stp = step(src, pos, line);
    assert(stp == crate::scanner::number_step(src, pos, line));
    assert(stp == Step::Tok(
        crate::token_type::TokenV {
            token_type: TokenType::NUMBER,
            lexeme: src.subrange(pos, len),
            literal: LiteralV::Num(n),
            line,
        },
        len,
        line,
    ));
    assert(crate::scanner::scan_from(src, len, line) == Ok::<Seq<crate::token_type::TokenV>, crate::scanner::LexError>(
        seq![crate::scanner::eof_token(line)],
    ));
    assert(seq![
        crate::token_type::TokenV {
            token_type: TokenType::NUMBER,
            lexeme: src.subrange(pos, len),
            literal: LiteralV::Num(n),
            line,
        },
    ] + seq![crate::scanner::eof_token(line)] =~= seq![
        crate::token_type::TokenV {
            token_type: TokenType::NUMBER,
            lexeme: src.subrange(pos, len),
            literal: LiteralV::Num(n),
            line,
        },
        crate::scanner::eof_token(line),
    ]);
}

/// A literal or a literal under a single prefix minus parses from a
/// two-token sequence ending in EOF.
proof fn lemma_parse_literal_pair(ts: Seq<Token>)
    requires
        ts.len() == 2,
        ts[0].token_type == TokenType::FALSE || ts[0].token_type == TokenType::TRUE
            || ts[0].token_type == TokenType::NIL || ts[0].token_type == TokenType::NUMBER
            || ts[0].token_type == TokenType::STRING,
        ts[1].token_type == TokenType::EOF,
    ensures
        crate::parser::parse_spec(ts) == Ok::<Expr, crate::parser::ParseError>(
            Expr::Literal { value: spec_literal_of(ts[0]) },
        ),
{
    let d = ts.len() as nat;
    let e = Expr::Literal { value: spec_literal_of(ts[0]) };
    assert(crate::parser::sp_primary(ts, 0, d) == Ok::<(Expr, int), crate::parser::ParseError>(
        (e, 1int),
    ));
    assert(crate::parser::sp_unary(ts, 0, d) == crate::parser::sp_primary(ts, 0, d));
    assert(crate::parser::sp_factor_rest(ts, e, 1, d) == Ok::<(Expr, int), crate::parser::ParseError>((e, 1int)));
    assert(crate::parser::sp_factor(ts, 0, d) == Ok::<(Expr, int), crate::parser::ParseError>(
        (e, 1int),
    ));
    assert(crate::parser::sp_term_rest(ts, e, 1, d) == Ok::<(Expr, int), crate::parser::ParseError>((e, 1int)));
    assert(crate::parser::sp_term(ts, 0, d) == Ok::<(Expr, int), crate::parser::ParseError>(
        (e, 1int),
    ));
    assert(crate::parser::sp_cmp_rest(ts, e, 1, d) == Ok::<(Expr, int), crate::parser::ParseError>((e, 1int)));
    assert(crate::parser::sp_comparison(ts, 0, d) == Ok::<(Expr, int), crate::parser::ParseError>((e, 1int)));
    assert(crate::parser::sp_eq_rest(ts, e, 1, d) == Ok::<(Expr, int), crate::parser::ParseError>((e, 1int)));
    assert(crate::parser::sp_equality(ts, 0, d) == Ok::<(Expr, int), crate::parser::ParseError>((e, 1int)));
    assert(crate::parser::sp_expression(ts, 0, d) == Ok::<(Expr, int), crate::parser::ParseError>((e, 1int)));
}

/// The literal value the parser reads from a literal token.
pub open spec fn spec_literal_of(t: Token) -> crate::token_type::Literal {
    if t.token_type == TokenType::FALSE {
        crate::token_type::Literal::Bool(false)
    } else if t.token_type == TokenType::TRUE {
        crate::token_type::Literal::Bool(true)
    } else if t.token_type == TokenType::NIL {
        crate::token_type::Literal::Nil
    } else {
        t.literal
    }
}

/// A prefix minus before a number literal parses as a unary node.
proof fn lemma_parse_minus_literal(ts: Seq<Token>)
    requires
        ts.len() == 3,
        ts[0].token_type == TokenType::MINUS,
        ts[1].token_type == TokenType::NUMBER,
        ts[2].token_type == TokenType::EOF,
    ensures
        crate::parser::parse_spec(ts) == Ok::<Expr, crate::parser::ParseError>(
            Expr::Unary {
                operator: ts[0],
                right: Box::new(Expr::Literal { value: ts[1].literal }),
            },
        ),
{
    let d = ts.len() as nat;
    let lit = Expr::Literal { value: ts[1].literal };
    let e = Expr::Unary { operator: ts[0], right: Box::new(lit) };
    assert(crate::parser::sp_primary(ts, 1, d) == Ok::<(Expr, int), crate::parser::ParseError>(
        (lit, 2int),
    ));
    assert(crate::parser::sp_unary(ts, 1, d) == crate::parser::sp_primary(ts, 1, d));
    assert(crate::parser::sp_unary(ts, 0, d) == Ok::<(Expr, int), crate::parser::ParseError>(
        (e, 2int),
    ));
    assert(crate::parser::sp_factor_rest(ts, e, 2, d) == Ok::<(Expr, int), crate::parser::ParseError>((e, 2int)));
    assert(crate::parser::sp_factor(ts, 0, d) == Ok::<(Expr, int), crate::parser::ParseError>(
        (e, 2int),
    ));
    assert(crate::parser::sp_term_rest(ts, e, 2, d) == Ok::<(Expr, int), crate::parser::ParseError>((e, 2int)));
    assert(crate::parser::sp_term(ts, 0, d) == Ok::<(Expr, int), crate::parser::ParseError>(
        (e, 2int),
    ));
    assert(crate::parser::sp_cmp_rest(ts, e, 2, d) == Ok::<(Expr, int), crate::parser::ParseError>((e, 2int)));
    assert(crate::parser::sp_comparison(ts, 0, d) == Ok::<(Expr, int), crate::parser::ParseError>((e, 2int)));
    assert(crate::parser::sp_eq_rest(ts, e, 2, d) == Ok::<(Expr, int), crate::parser::ParseError>((e, 2int)));
    assert(crate::parser::sp_equality(ts, 0, d) == Ok::<(Expr, int), crate::parser::ParseError>((e, 2int)));
    assert(crate::parser::sp_expression(ts, 0, d) == Ok::<(Expr, int), crate::parser::ParseError>((e, 2int)));
}

/// An expression that is one literal, other than a string literal.
pub open spec fn is_plain_literal(e: Expr) -> bool {
    match e {
        Expr::Literal { value } => !(value is Str),
        _ => false,
    }
}

/// Scanning one bare word yields one token of the word's kind.
proof fn lemma_scan_word(src: Seq<char>)
    requires
        src.len() >= 1,
        forall|i: int| 0 <= i < src.len() ==> is_alpha_char(#[trigger] src[i]),
    ensures
        crate::scanner::scan_spec(src) == Ok::<Seq<crate::token_type::TokenV>, crate::scanner::LexError>(
            seq![
                crate::token_type::TokenV {
                    token_type: crate::scanner::keyword_or_ident(src),
                    lexeme: src,
                    literal: LiteralV::Nil,
                    line: 1,
                },
                crate::scanner::eof_token(1),
            ],
        ),
{
    let len = src.len() as int;
    assert(forall|i: int|
        0 <= i < len ==> crate::chars::is_ident_char(#[trigger] src[i]));
    lemma_ident_end_determined(src, 0, len);
    assert(is_alpha_char(src[0]));
    assert(!is_digit_char(src[0]));
    assert(src.subrange(0, len) =~= src);
    let tv = crate::token_type::TokenV {
        token_type: crate::scanner::keyword_or_ident(src),
        lexeme: src,
        literal: LiteralV::Nil,
        line: 1,
    };
    assert(step(src, 0, 1) == Step::Tok(tv, len, 1));
    assert(crate::scanner::scan_from(src, len, 1) == Ok::<Seq<crate::token_type::TokenV>, crate::scanner::LexError>(
        seq![crate::scanner::eof_token(1)],
    ));
    assert(seq![tv] + seq![crate::scanner::eof_token(1)] =~= seq![
        tv,
        crate::scanner::eof_token(1),
    ]);
}

/// Printing, then lexing, then parsing and evaluating a literal-only
/// expression gives back the value of the original expression.  (A
/// string literal is printed as its raw text, without quotes, so it
/// does not lex back to a string token and stands outside this law.)
pub proof fn lemma_print_lex_eval_roundtrip(e: Expr)
    requires
        is_plain_literal(e),
        e.wf(),
    ensures
        crate::scanner::scan_spec(crate::print::render_expr(e)) is Ok,
        forall|ts: Seq<Token>|
            #[trigger] crate::scanner::token_views(ts) == crate::scanner::scan_spec(
                crate::print::render_expr(e),
            )->Ok_0 ==> {
                &&& crate::parser::parse_spec(ts) is Ok
                &&& eval_expr(crate::parser::parse_spec(ts)->Ok_0) == eval_expr(e)
            },
{
    let v = match e {
        Expr::Literal { value } => value,
        _ => crate::token_type::Literal::Nil,
    };
    match v {
        crate::token_type::Literal::Num(n) => {
            if n.mantissa >= 0 {
                lemma_roundtrip_nonneg_number(e);
            } else {
                lemma_roundtrip_negative_number(e);
            }
        },
        _ => {
            lemma_roundtrip_word(e);
        },
    }
}

/// The roundtrip law for `nil` and the booleans.
proof fn lemma_roundtrip_word(e: Expr)
    requires
        is_plain_literal(e),
        !(match e {
            Expr::Literal { value } => value,
            _ => crate::token_type::Literal::Nil,
        } is Num),
    ensures
        crate::scanner::scan_spec(crate::print::render_expr(e)) is Ok,
        forall|ts: Seq<Token>|
            #[trigger] crate::scanner::token_views(ts) == crate::scanner::scan_spec(
                crate::print::render_expr(e),
            )->Ok_0 ==> {
                &&& crate::parser::parse_spec(ts) is Ok
                &&& eval_expr(crate::parser::parse_spec(ts)->Ok_0) == eval_expr(e)
            },
{
    let text = crate::print::render_expr(e);
    let v = match e {
        Expr::Literal { value } => value,
        _ => crate::token_type::Literal::Nil,
    };
    reveal_strlit("and");
    reveal_strlit("class");
    reveal_strlit("else");
    reveal_strlit("false");
    reveal_strlit("for");
    reveal_strlit("fun");
    reveal_strlit("if");
    reveal_strlit("nil");
    reveal_strlit("or");
    reveal_strlit("print");
    reveal_strlit("return");
    reveal_strlit("super");
    reveal_strlit("this");
    reveal_strlit("true");
    reveal_strlit("var");
    reveal_strlit("while");
    let tt = match v {
        crate::token_type::Literal::Bool(b) => if b {
            TokenType::TRUE
        } else {
            TokenType::FALSE
        },
        _ => TokenType::NIL,
    };
    match v {
        crate::token_type::Literal::Nil => {
            assert(text == "nil"@);
        },
        crate::token_type::Literal::Bool(b) => {
            if b {
                assert(text == "true"@);
            } else {
                assert(text == "false"@);
            }
        },
        _ => {
        },
    }
    assert(forall|i: int| 0 <= i < text.len() ==> is_alpha_char(#[trigger] text[i]));
    lemma_scan_word(text);
    assert(crate::scanner::keyword_or_ident(text) == tt);
    let expected = crate::scanner::scan_spec(text)->Ok_0;
    assert forall|ts: Seq<Token>| #[trigger] crate::scanner::token_views(ts) == expected implies {
        &&& crate::parser::parse_spec(ts) is Ok
        &&& eval_expr(crate::parser::parse_spec(ts)->Ok_0) == eval_expr(e)
    } by {
        assert(crate::scanner::token_views(ts).len() == ts.len());
        assert(ts.len() == 2);
        assert(crate::scanner::token_views(ts)[0] == ts[0]@);
        assert(crate::scanner::token_views(ts)[1] == ts[1]@);
        assert(ts[0].token_type == tt);
        assert(ts[1].token_type == TokenType::EOF);
        lemma_parse_literal_pair(ts);
        assert(spec_literal_of(ts[0]) == v);
    }
}

/// The roundtrip law for a nonnegative number literal.
proof fn lemma_roundtrip_nonneg_number(e: Expr)
    requires
        is_plain_literal(e),
        e.wf(),
        (match e {
            Expr::Literal { value } => value,
            _ => crate::token_type::Literal::Nil,
        }) matches crate::token_type::Literal::Num(n) && n.mantissa >= 0,
    ensures
        crate::scanner::scan_spec(crate::print::render_expr(e)) is Ok,
        forall|ts: Seq<Token>|
            #[trigger] crate::scanner::token_views(ts) == crate::scanner::scan_spec(
                crate::print::render_expr(e),
            )->Ok_0 ==> {
                &&& crate::parser::parse_spec(ts) is Ok
                &&& eval_expr(crate::parser::parse_spec(ts)->Ok_0) == eval_expr(e)
            },
{
    let text = crate::print::render_expr(e);
    let v = match e {
        Expr::Literal { value } => value,
        _ => crate::token_type::Literal::Nil,
    };
    let n = v->Num_0;
    assert(text.subrange(0, text.len() as int) =~= crate::number::number_text(n));
    lemma_scan_number_text(text, 0, 1, n);
    let expected = crate::scanner::scan_spec(text)->Ok_0;
    assert forall|ts: Seq<Token>| #[trigger] crate::scanner::token_views(ts) == expected implies {
        &&& crate::parser::parse_spec(ts) is Ok
        &&& eval_expr(crate::parser::parse_spec(ts)->Ok_0) == eval_expr(e)
    } by {
        assert(crate::scanner::token_views(ts).len() == ts.len());
        assert(ts.len() == 2);
        assert(crate::scanner::token_views(ts)[0] == ts[0]@);
        assert(crate::scanner::token_views(ts)[1] == ts[1]@);
        assert(ts[0].token_type == TokenType::NUMBER);
        assert(ts[1].token_type == TokenType::EOF);
        lemma_parse_literal_pair(ts);
        assert(ts[0].literal@ == LiteralV::Num(n));
        match ts[0].literal {
            crate::token_type::Literal::Num(x) => {
                assert(x == n);
            },
            _ => {
                assert(ts[0].literal@ != LiteralV::Num(n));
            },
        }
        assert(spec_literal_of(ts[0]) == crate::token_type::Literal::Num(n));
    }
}

/// The roundtrip law for a negative number literal: its text lexes to
/// a minus token and a number token, which parse to a unary negation
/// evaluating back to the original value.
proof fn lemma_roundtrip_negative_number(e: Expr)
    requires
        is_plain_literal(e),
        e.wf(),
        (match e {
            Expr::Literal { value } => value,
            _ => crate::token_type::Literal::Nil,
        }) matches crate::token_type::Literal::Num(n) && n.mantissa < 0,
    ensures
        crate::scanner::scan_spec(crate::print::render_expr(e)) is Ok,
        forall|ts: Seq<Token>|
            #[trigger] crate::scanner::token_views(ts) == crate::scanner::scan_spec(
                crate::print::render_expr(e),
            )->Ok_0 ==> {
                &&& crate::parser::parse_spec(ts) is Ok
                &&& eval_expr(crate::parser::parse_spec(ts)->Ok_0) == eval_expr(e)
            },
{
    let text = crate::print::render_expr(e);
    let v = match e {
        Expr::Literal { value } => value,
        _ => crate::token_type::Literal::Nil,
    };
    let n = v->Num_0;
    let nabs = n.spec_neg();
    crate::number::lemma_neg_inv(n);
    assert(crate::number::number_text(nabs) =~= text.subrange(1, text.len() as int));
    assert(text[0] == '-');
    lemma_scan_number_text(text, 1, 1, nabs);
    assert(step(text, 0, 1) == Step::Tok(span_token(TokenType::MINUS, text, 0, 1, 1), 1, 1));
    let mtok = span_token(TokenType::MINUS, text, 0, 1, 1);
    let ntok = crate::token_type::TokenV {
        token_type: TokenType::NUMBER,
        lexeme: text.subrange(1, text.len() as int),
        literal: LiteralV::Num(nabs),
        line: 1,
    };
    assert(crate::scanner::scan_spec(text) == Ok::<
        Seq<crate::token_type::TokenV>,
        crate::scanner::LexError,
    >(seq![mtok] + seq![ntok, crate::scanner::eof_token(1)]));
    assert(seq![mtok] + seq![ntok, crate::scanner::eof_token(1)] =~= seq![
        mtok,
        ntok,
        crate::scanner::eof_token(1),
    ]);
    let expected = crate::scanner::scan_spec(text)->Ok_0;
    assert forall|ts: Seq<Token>| #[trigger] crate::scanner::token_views(ts) == expected implies {
        &&& crate::parser::parse_spec(ts) is Ok
        &&& eval_expr(crate::parser::parse_spec(ts)->Ok_0) == eval_expr(e)
    } by {
        assert(crate::scanner::token_views(ts).len() == ts.len());
        assert(ts.len() == 3);
        assert(crate::scanner::token_views(ts)[0] == ts[0]@);
        assert(crate::scanner::token_views(ts)[1] == ts[1]@);
        assert(crate::scanner::token_views(ts)[2] == ts[2]@);
        assert(ts[0].token_type == TokenType::MINUS);
        assert(ts[1].token_type == TokenType::NUMBER);
        assert(ts[2].token_type == TokenType::EOF);
        lemma_parse_minus_literal(ts);
        assert(ts[1].literal@ == LiteralV::Num(nabs));
        match ts[1].literal {
            crate::token_type::Literal::Num(x) => {
                assert(x == nabs);
            },
            _ => {
                assert(ts[1].literal@ != LiteralV::Num(nabs));
            },
        }
        let parsed = crate::parser::parse_spec(ts)->Ok_0;
        assert(parsed == Expr::Unary {
            operator: ts[0],
            right: Box::new(
                Expr::Literal { value: crate::token_type::Literal::Num(nabs) },
            ),
        });
        assert(nabs.spec_neg() == n);
        assert(eval_expr(Expr::Literal { value: crate::token_type::Literal::Num(nabs) })
            == Ok::<LiteralV, crate::interpret::RuntimeError>(LiteralV::Num(nabs)));
        assert(crate::interpret::apply_unary(ts[0], LiteralV::Num(nabs)) == Ok::<
            LiteralV,
            crate::interpret::RuntimeError,
        >(LiteralV::Num(n)));
        assert(eval_expr(parsed) == Ok::<LiteralV, crate::interpret::RuntimeError>(
            LiteralV::Num(n),
        ));
    }
}

/// The kind of a single-character token.
pub open spec fn one_char_kind(c: char) -> Option<TokenType> {
    if c == '(' {
        Some(TokenType::LEFT_PAREN)
    } else if c == ')' {
        Some(TokenType::RIGHT_PAREN)
    } else if c == '{' {
        Some(TokenType::LEFT_BRACE)
    } else if c == '}' {
        Some(TokenType::RIGHT_BRACE)
    } else if c == ',' {
        Some(TokenType::COMMA)
    } else if c == '.' {
        Some(TokenType::DOT)
    } else if c == '-' {
        Some(TokenType::MINUS)
    } else if c == '+' {
        Some(TokenType::PLUS)
    } else if c == ';' {
        Some(TokenType::SEMICOLON)
    } else if c == '*' {
        Some(TokenType::STAR)
    } else {
        None
    }
}

/// The kind of an operator that takes a trailing `=`.
pub open spec fn two_char_kind(c: char) -> Option<TokenType> {
    if c == '!' {
        Some(TokenType::BANG_EQUAL)
    } else if c == '=' {
        Some(TokenType::EQUAL_EQUAL)
    } else if c == '<' {
        Some(TokenType::LESS_EQUAL)
    } else if c == '>' {
        Some(TokenType::GREATER_EQUAL)
    } else {
        None
    }
}

/// The kind of such an operator without the trailing `=`.
pub open spec fn bare_kind(c: char) -> TokenType {
    if c == '!' {
        TokenType::BANG
    } else if c == '=' {
        TokenType::EQUAL
    } else if c == '<' {
        TokenType::LESS
    } else {
        TokenType::GREATER
    }
}

} // verus!

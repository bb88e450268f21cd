use rlox::expr::Expr;
use rlox::interpret::{RuntimeError, RuntimeErrorKind, ValueKind};
use rlox::number::Number;
use rlox::operations::{Interpret, Print};
use rlox::parser::{ParseErrorKind, Parser};
use rlox::scanner::{LexError, Scanner};
use rlox::stmt::Stmt;
use rlox::token_type::{Literal, Token, TokenType};

fn lex(src: &str) -> Vec<Token> {
    let mut s = Scanner::new(src);
    s.scan_tokens().expect("lexing failed")
}

fn parse_src(src: &str) -> Result<Expr, rlox::parser::ParseError> {
    let mut p = Parser::new(lex(src));
    p.parse()
}

fn eval_src(src: &str) -> Result<Literal, RuntimeError> {
    parse_src(src).expect("parsing failed").interpret()
}

fn num(mantissa: i64, scale: u32) -> Number {
    Number { mantissa, scale }
}

fn op(tt: TokenType, lexeme: &str) -> Token {
    Token::new(tt, lexeme.to_string(), Literal::Nil, 1)
}

fn lit_num(mantissa: i64, scale: u32) -> Expr {
    Expr::Literal { value: Literal::Num(num(mantissa, scale)) }
}

#[test]
fn lex_grouped_sum_token_kinds() {
    let toks = lex("(1 + 2) * 3");
    let kinds: Vec<TokenType> = toks.iter().map(|t| t.token_type).collect();
    assert_eq!(
        kinds,
        vec![
            TokenType::LEFT_PAREN,
            TokenType::NUMBER,
            TokenType::PLUS,
            TokenType::NUMBER,
            TokenType::RIGHT_PAREN,
            TokenType::STAR,
            TokenType::NUMBER,
            TokenType::EOF,
        ]
    );
    assert_eq!(toks[1].literal, Literal::Num(num(1, 0)));
    assert_eq!(toks[3].literal, Literal::Num(num(2, 0)));
    assert_eq!(toks[6].literal, Literal::Num(num(3, 0)));
    assert_eq!(toks[0].lexeme, "(");
    assert_eq!(toks[2].lexeme, "+");
    assert_eq!(toks[7].lexeme, "");
}

#[test]
fn star_binds_tighter_than_plus() {
    let got = parse_src("1 + 2 * 3").unwrap();
    let expected = Expr::Binary {
        left: Box::new(lit_num(1, 0)),
        operator: op(TokenType::PLUS, "+"),
        right: Box::new(Expr::Binary {
            left: Box::new(lit_num(2, 0)),
            operator: op(TokenType::STAR, "*"),
            right: Box::new(lit_num(3, 0)),
        }),
    };
    assert_eq!(got, expected);
}

#[test]
fn subtraction_is_left_associative() {
    let got = parse_src("1 - 2 - 3").unwrap();
    let expected = Expr::Binary {
        left: Box::new(Expr::Binary {
            left: Box::new(lit_num(1, 0)),
            operator: op(TokenType::MINUS, "-"),
            right: Box::new(lit_num(2, 0)),
        }),
        operator: op(TokenType::MINUS, "-"),
        right: Box::new(lit_num(3, 0)),
    };
    assert_eq!(got, expected);
}

#[test]
fn printer_renders_canonical_form() {
    let e = Expr::Binary {
        left: Box::new(Expr::Unary {
            operator: op(TokenType::MINUS, "-"),
            right: Box::new(lit_num(123, 0)),
        }),
        operator: op(TokenType::STAR, "*"),
        right: Box::new(Expr::Grouping {
            expression: Box::new(lit_num(4567, 2)),
        }),
    };
    assert_eq!(e.print(), "( * ( - 123 ) ( grouping 45.67 ) )");
}

#[test]
fn evaluate_grouped_product() {
    assert_eq!(eval_src("2 * (3 + 4)").unwrap(), Literal::Num(num(14, 0)));
}

#[test]
fn negating_a_string_is_a_typed_error() {
    let err = eval_src("-\"abc\"").unwrap_err();
    assert_eq!(err.kind, RuntimeErrorKind::CannotNegate(ValueKind::Text));
    assert_eq!(err.line, 1);
}

#[test]
fn synchronize_recovers_after_malformed_statement() {
    let mut p = Parser::new(lex("(1 + ; 7 ;"));
    let first = p.parse();
    assert!(first.is_err());
    p.synchronize();
    let second = p.parse().unwrap();
    assert_eq!(second, lit_num(7, 0));
}

#[test]
fn relex_printed_literal_keeps_value() {
    let original = lit_num(4567, 2);
    let text = original.print();
    assert_eq!(text, "45.67");
    let back = eval_src(&text).unwrap();
    assert_eq!(original.interpret().unwrap(), back);
}

#[test]
fn relex_printed_negative_literal_keeps_value() {
    let original = lit_num(-5, 0);
    let text = original.print();
    assert_eq!(text, "-5");
    let back = eval_src(&text).unwrap();
    assert_eq!(back, Literal::Num(num(-5, 0)));
}

#[test]
fn line_counter_follows_newlines() {
    let toks = lex("1\n2");
    assert_eq!(toks[0].line, 1);
    assert_eq!(toks[1].line, 2);
    let toks = lex("\"a\nb\" 3");
    assert_eq!(toks[0].token_type, TokenType::STRING);
    assert_eq!(toks[0].line, 2);
    assert_eq!(toks[1].line, 2);
}

#[test]
fn unterminated_string_is_reported() {
    let mut s = Scanner::new("\"open");
    assert_eq!(
        s.scan_tokens().unwrap_err(),
        LexError::UnterminatedString { line: 1 }
    );
}

#[test]
fn unexpected_character_is_reported() {
    let mut s = Scanner::new("1 @");
    assert_eq!(
        s.scan_tokens().unwrap_err(),
        LexError::UnexpectedChar { ch: '@', line: 1 }
    );
}

#[test]
fn oversized_number_literal_is_reported() {
    let mut s = Scanner::new("99999999999999999999");
    assert_eq!(
        s.scan_tokens().unwrap_err(),
        LexError::NumberTooLarge { line: 1 }
    );
}

#[test]
fn keywords_are_classified() {
    let toks = lex("and class else false for fun if nil or print return super this true var while");
    let kinds: Vec<TokenType> = toks.iter().map(|t| t.token_type).collect();
    assert_eq!(
        kinds,
        vec![
            TokenType::AND,
            TokenType::CLASS,
            TokenType::ELSE,
            TokenType::FALSE,
            TokenType::FOR,
            TokenType::FUN,
            TokenType::IF,
            TokenType::NIL,
            TokenType::OR,
            TokenType::PRINT,
            TokenType::RETURN,
            TokenType::SUPER,
            TokenType::THIS,
            TokenType::TRUE,
            TokenType::VAR,
            TokenType::WHILE,
            TokenType::EOF,
        ]
    );
}

#[test]
fn identifier_admits_digits_after_first_character() {
    let toks = lex("a1_b");
    assert_eq!(toks[0].token_type, TokenType::IDENTIFIER);
    assert_eq!(toks[0].lexeme, "a1_b");
}

#[test]
fn comments_are_skipped() {
    let toks = lex("// nothing here\n1");
    assert_eq!(toks[0].token_type, TokenType::NUMBER);
    assert_eq!(toks[0].line, 2);
    assert_eq!(toks.len(), 2);
}

#[test]
fn operators_take_the_longest_lexeme() {
    let toks = lex("=== <= >= != < > !");
    let kinds: Vec<TokenType> = toks.iter().map(|t| t.token_type).collect();
    assert_eq!(
        kinds,
        vec![
            TokenType::EQUAL_EQUAL,
            TokenType::EQUAL,
            TokenType::LESS_EQUAL,
            TokenType::GREATER_EQUAL,
            TokenType::BANG_EQUAL,
            TokenType::LESS,
            TokenType::GREATER,
            TokenType::BANG,
            TokenType::EOF,
        ]
    );
}

#[test]
fn slash_without_second_slash_divides() {
    let toks = lex("1 / 2");
    assert_eq!(toks[1].token_type, TokenType::SLASH);
    assert_eq!(eval_src("1 / 2").unwrap(), Literal::Num(num(5, 1)));
}

#[test]
fn plus_concatenates_strings() {
    assert_eq!(
        eval_src("\"foo\" + \"bar\"").unwrap(),
        Literal::Str("foobar".to_string())
    );
}

#[test]
fn comparisons_need_numbers_and_yield_booleans() {
    assert_eq!(eval_src("1 < 2").unwrap(), Literal::Bool(true));
    assert_eq!(eval_src("2 <= 2").unwrap(), Literal::Bool(true));
    assert_eq!(eval_src("3 > 4").unwrap(), Literal::Bool(false));
    assert_eq!(eval_src("3 >= 4").unwrap(), Literal::Bool(false));
    let err = eval_src("1 < \"a\"").unwrap_err();
    assert_eq!(
        err.kind,
        RuntimeErrorKind::InvalidOperands(TokenType::LESS, ValueKind::Number, ValueKind::Text)
    );
}

#[test]
fn equality_is_defined_across_kinds() {
    assert_eq!(eval_src("1 == 1").unwrap(), Literal::Bool(true));
    assert_eq!(eval_src("1 == 2").unwrap(), Literal::Bool(false));
    assert_eq!(eval_src("1 == \"1\"").unwrap(), Literal::Bool(false));
    assert_eq!(eval_src("nil == nil").unwrap(), Literal::Bool(true));
    assert_eq!(eval_src("true != false").unwrap(), Literal::Bool(true));
    assert_eq!(eval_src("0.5 == 0.50").unwrap(), Literal::Bool(true));
}

#[test]
fn truthiness_only_nil_and_false_are_falsy() {
    assert_eq!(eval_src("!nil").unwrap(), Literal::Bool(true));
    assert_eq!(eval_src("!false").unwrap(), Literal::Bool(true));
    assert_eq!(eval_src("!0").unwrap(), Literal::Bool(false));
    assert_eq!(eval_src("!\"\"").unwrap(), Literal::Bool(false));
}

#[test]
fn division_is_exact_or_fails() {
    assert_eq!(eval_src("7 / 2").unwrap(), Literal::Num(num(35, 1)));
    assert_eq!(eval_src("1 / 3").unwrap_err().kind, RuntimeErrorKind::NotRepresentable);
    assert_eq!(eval_src("1 / 0").unwrap_err().kind, RuntimeErrorKind::DivisionByZero);
}

#[test]
fn decimal_arithmetic_is_exact() {
    assert_eq!(eval_src("0.1 + 0.2").unwrap(), Literal::Num(num(3, 1)));
    assert_eq!(eval_src("1.5 * 1.5").unwrap(), Literal::Num(num(225, 2)));
    assert_eq!(eval_src("1 - 0.25").unwrap(), Literal::Num(num(75, 2)));
}

#[test]
fn trailing_zeros_normalize_away() {
    let toks = lex("1.50");
    assert_eq!(toks[0].literal, Literal::Num(num(15, 1)));
    assert_eq!(
        Expr::Literal { value: toks[0].literal.clone() }.print(),
        "1.5"
    );
}

#[test]
fn sum_beyond_the_range_fails() {
    let err = eval_src("9223372036854775807 + 1").unwrap_err();
    assert_eq!(err.kind, RuntimeErrorKind::NotRepresentable);
}

#[test]
fn mixed_operands_fail_with_both_kinds_named() {
    let err = eval_src("1 + \"a\"").unwrap_err();
    assert_eq!(
        err.kind,
        RuntimeErrorKind::InvalidOperands(TokenType::PLUS, ValueKind::Number, ValueKind::Text)
    );
}

#[test]
fn variable_and_assignment_need_the_host_environment() {
    let name = op(TokenType::IDENTIFIER, "x");
    let var_expr = Expr::Variable { name: name.clone() };
    let err = var_expr.interpret().unwrap_err();
    assert_eq!(err.kind, RuntimeErrorKind::EnvironmentRequired);
    let assign = Expr::Assign { name, value: Box::new(lit_num(1, 0)) };
    let err = assign.interpret().unwrap_err();
    assert_eq!(err.kind, RuntimeErrorKind::EnvironmentRequired);
}

#[test]
fn statements_without_environment_fail_and_expressions_pass() {
    let s = Stmt::Expression { expression: Box::new(lit_num(2, 0)) };
    assert_eq!(s.interpret().unwrap(), Literal::Num(num(2, 0)));
    let p = Stmt::Print { expression: Box::new(lit_num(3, 0)) };
    assert_eq!(p.interpret().unwrap(), Literal::Num(num(3, 0)));
    let v = Stmt::Var {
        name: op(TokenType::IDENTIFIER, "x"),
        initializer: Box::new(lit_num(1, 0)),
    };
    assert_eq!(v.interpret().unwrap_err().kind, RuntimeErrorKind::EnvironmentRequired);
    let b = Stmt::Block { statements: vec![] };
    assert_eq!(b.interpret().unwrap_err().kind, RuntimeErrorKind::EnvironmentRequired);
}

#[test]
fn statements_render_in_prefix_form() {
    let s = Stmt::Print { expression: Box::new(lit_num(1, 0)) };
    assert_eq!(s.print(), "( print 1 )");
    let v = Stmt::Var {
        name: op(TokenType::IDENTIFIER, "x"),
        initializer: Box::new(lit_num(2, 0)),
    };
    assert_eq!(v.print(), "( var x 2 )");
    let b = Stmt::Block {
        statements: vec![
            Stmt::Expression { expression: Box::new(lit_num(1, 0)) },
            Stmt::Expression { expression: Box::new(lit_num(2, 0)) },
        ],
    };
    assert_eq!(b.print(), "( block ( ; 1 ) ( ; 2 ) )");
}

#[test]
fn missing_right_paren_is_reported() {
    let err = parse_src("(1").unwrap_err();
    assert_eq!(err.kind, ParseErrorKind::ExpectedRightParen);
    assert_eq!(err.found, TokenType::EOF);
}

#[test]
fn no_primary_expression_is_reported() {
    let err = parse_src("+ 1").unwrap_err();
    assert_eq!(err.kind, ParseErrorKind::ExpectedExpression);
    assert_eq!(err.found, TokenType::PLUS);
}

#[test]
fn token_new_keeps_its_fields() {
    let t = Token::new(TokenType::STRING, "\"hi\"".to_string(), Literal::Str("hi".to_string()), 7);
    assert_eq!(t.token_type, TokenType::STRING);
    assert_eq!(t.lexeme, "\"hi\"");
    assert_eq!(t.literal, Literal::Str("hi".to_string()));
    assert_eq!(t.line, 7);
}

#[test]
fn number_text_covers_signs_and_fractions() {
    assert_eq!(num(-4567, 2).text(), "-45.67");
    assert_eq!(num(5, 2).text(), "0.05");
    assert_eq!(num(0, 0).text(), "0");
    assert_eq!(num(123, 0).text(), "123");
}

#[test]
fn dot_without_following_digit_stays_separate() {
    let toks = lex("1.");
    assert_eq!(toks[0].token_type, TokenType::NUMBER);
    assert_eq!(toks[0].literal, Literal::Num(num(1, 0)));
    assert_eq!(toks[1].token_type, TokenType::DOT);
}

#[test]
fn unary_bang_and_minus_nest() {
    assert_eq!(eval_src("--5").unwrap(), Literal::Num(num(5, 0)));
    assert_eq!(eval_src("!!true").unwrap(), Literal::Bool(true));
}

#[test]
fn grouping_is_transparent() {
    assert_eq!(eval_src("((((7))))").unwrap(), Literal::Num(num(7, 0)));
}

#[test]
fn empty_source_yields_only_eof() {
    let toks = lex("");
    assert_eq!(toks.len(), 1);
    assert_eq!(toks[0].token_type, TokenType::EOF);
    assert_eq!(toks[0].line, 1);
}

#[test]
fn blank_characters_are_discarded() {
    let toks = lex(" \r\t1\t ");
    assert_eq!(toks.len(), 2);
    assert_eq!(toks[0].token_type, TokenType::NUMBER);
}

#[test]
fn small_fraction_round_trips_through_text() {
    let toks = lex("0.05");
    assert_eq!(toks[0].literal, Literal::Num(num(5, 2)));
    let e = Expr::Literal { value: toks[0].literal.clone() };
    assert_eq!(e.print(), "0.05");
    assert_eq!(eval_src(&e.print()).unwrap(), Literal::Num(num(5, 2)));
}

#[test]
fn string_literal_keeps_inner_text() {
    let toks = lex("\"a b\"");
    assert_eq!(toks[0].token_type, TokenType::STRING);
    assert_eq!(toks[0].lexeme, "\"a b\"");
    assert_eq!(toks[0].literal, Literal::Str("a b".to_string()));
}

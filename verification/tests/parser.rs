use fpu_calc::parser::expression::{Expression, Func};
use fpu_calc::parser::tokenizer::{check_literals, get_next_token, tokenize, Token};
use fpu_calc::parser::util::str_after;
use fpu_calc::parser::{parse, ExpressionError};

/// An expression with its literals read as numbers, to compare with the
/// values the calculator works with.
#[derive(Debug, PartialEq)]
enum Num {
    Immediate(f64),
    Add(Box<Num>, Box<Num>),
    Sub(Box<Num>, Box<Num>),
    Mul(Box<Num>, Box<Num>),
    Div(Box<Num>, Box<Num>),
    Func(Func, Box<Num>),
    Var(String),
}

fn num(e: &Expression) -> Num {
    match e {
        Expression::Immediate(t) => Num::Immediate(t.parse().unwrap()),
        Expression::Add(a, b) => Num::Add(Box::new(num(a)), Box::new(num(b))),
        Expression::Sub(a, b) => Num::Sub(Box::new(num(a)), Box::new(num(b))),
        Expression::Mul(a, b) => Num::Mul(Box::new(num(a)), Box::new(num(b))),
        Expression::Div(a, b) => Num::Div(Box::new(num(a)), Box::new(num(b))),
        Expression::Func(f, a) => Num::Func(f.clone(), Box::new(num(a))),
        Expression::Var(n) => Num::Var(n.clone()),
    }
}

fn parse_num(s: &str) -> Result<Num, ExpressionError> {
    parse(s).map(|e| num(&e))
}

/// A token with its literal read as a number.
#[derive(Debug, PartialEq)]
enum Tok {
    DecLiteral(f64),
    Multiply,
    Divide,
    Add,
    Subtract,
    LParen,
    RParen,
    Other,
}

fn tok(t: &Token) -> Tok {
    match t {
        Token::DecLiteral(s) => Tok::DecLiteral(s.parse().unwrap()),
        Token::Multiply => Tok::Multiply,
        Token::Divide => Tok::Divide,
        Token::Add => Tok::Add,
        Token::Subtract => Tok::Subtract,
        Token::LParen => Tok::LParen,
        Token::RParen => Tok::RParen,
        _ => Tok::Other,
    }
}

fn tokenize_num(s: &str) -> Result<Vec<Tok>, ExpressionError> {
    tokenize(s).map(|v| v.iter().map(tok).collect())
}

fn imm(x: f64) -> Box<Num> {
    Box::new(Num::Immediate(x))
}

#[test]
fn parse_test() {
    // Test Order of operations
    assert_eq!(
        parse_num("1+2*3"),
        Ok(Num::Add(
            Box::new(Num::Immediate(1.0)),
            Box::new(Num::Mul(Box::new(Num::Immediate(2.0)), Box::new(Num::Immediate(3.0))))
        ))
    );
    assert_eq!(
        parse_num("1*2+3"),
        Ok(Num::Add(
            Box::new(Num::Mul(Box::new(Num::Immediate(1.0)), Box::new(Num::Immediate(2.0)))),
            Box::new(Num::Immediate(3.0))
        ))
    );
    assert_eq!(parse_num("489"), Ok(Num::Immediate(489.0)));
    assert_eq!(
        parse_num("2(4+5)"),
        Ok(Num::Mul(
            Box::new(Num::Immediate(2.0)),
            Box::new(Num::Add(Box::new(Num::Immediate(4.0)), Box::new(Num::Immediate(5.0))))
        ))
    )
}

#[test]
fn tokenizer_test() {
    assert_eq!(
        tokenize_num(".2*3"),
        Ok(vec![Tok::DecLiteral(0.2), Tok::Multiply, Tok::DecLiteral(3.0)])
    );
}

#[test]
fn literal_text_is_kept() {
    assert_eq!(parse("0.50").unwrap(), Expression::Immediate(String::from("0.50")));
    assert_eq!(tokenize("12.5").unwrap(), vec![Token::DecLiteral("12.5")]);
}

#[test]
fn empty_input_is_zero() {
    assert_eq!(parse("").unwrap(), Expression::Immediate(String::from("0")));
    assert_eq!(tokenize("").unwrap(), vec![]);
}

#[test]
fn same_precedence_groups_from_the_left() {
    assert_eq!(parse_num("8-2-1"), Ok(Num::Sub(Box::new(Num::Sub(imm(8.0), imm(2.0))), imm(1.0))));
    assert_eq!(parse_num("8/2*4"), Ok(Num::Mul(Box::new(Num::Div(imm(8.0), imm(2.0))), imm(4.0))));
    assert_eq!(parse_num("8-2+1"), Ok(Num::Add(Box::new(Num::Sub(imm(8.0), imm(2.0))), imm(1.0))));
}

#[test]
fn division_binds_tighter_than_subtraction() {
    assert_eq!(parse_num("9-6/3"), Ok(Num::Sub(imm(9.0), Box::new(Num::Div(imm(6.0), imm(3.0))))));
}

#[test]
fn parentheses_group() {
    assert_eq!(parse_num("(1+2)*3"), Ok(Num::Mul(Box::new(Num::Add(imm(1.0), imm(2.0))), imm(3.0))));
    assert_eq!(parse_num("((7))"), Ok(Num::Immediate(7.0)));
    assert_eq!(
        parse_num("1+2(3)"),
        Ok(Num::Add(imm(1.0), Box::new(Num::Mul(imm(2.0), imm(3.0)))))
    );
}

#[test]
fn operands_are_kept_in_order() {
    let e = parse("1.5*(2-3)/4+5").unwrap();
    fn leaves(e: &Expression, out: &mut Vec<String>) {
        match e {
            Expression::Immediate(t) => out.push(t.clone()),
            Expression::Var(n) => out.push(n.clone()),
            Expression::Add(a, b) | Expression::Sub(a, b) | Expression::Mul(a, b) | Expression::Div(a, b) => {
                leaves(a, out);
                leaves(b, out);
            }
            Expression::Func(_, a) => leaves(a, out),
        }
    }
    let mut v = Vec::new();
    leaves(&e, &mut v);
    assert_eq!(v, vec!["1.5", "2", "3", "4", "5"]);
}

#[test]
fn syntax_errors() {
    assert_eq!(parse("1+"), Err(ExpressionError::InvalidSyntax(0)));
    assert_eq!(parse("+1"), Err(ExpressionError::InvalidSyntax(0)));
    assert_eq!(parse("(1+2"), Err(ExpressionError::InvalidSyntax(0)));
    assert_eq!(parse("1+2)"), Err(ExpressionError::InvalidSyntax(0)));
    assert_eq!(parse("()"), Err(ExpressionError::InvalidSyntax(0)));
    assert_eq!(parse("1.2.3"), Err(ExpressionError::InvalidSyntax(0)));
}

#[test]
fn unknown_characters_are_rejected() {
    assert_eq!(tokenize("1+x"), Err(ExpressionError::InvalidSyntax(0)));
    assert_eq!(tokenize("2 3"), Err(ExpressionError::InvalidSyntax(0)));
    assert_eq!(tokenize("é"), Err(ExpressionError::InvalidSyntax(0)));
    assert_eq!(parse("sin(1)"), Err(ExpressionError::InvalidSyntax(0)));
}

#[test]
fn tokens_give_back_the_input() {
    let input = "3.25*(1-.5)/2+7.";
    let joined: String = tokenize(input)
        .unwrap()
        .iter()
        .map(|t| match t {
            Token::DecLiteral(s) => s.to_string(),
            Token::Multiply => "*".to_string(),
            Token::Divide => "/".to_string(),
            Token::Add => "+".to_string(),
            Token::Subtract => "-".to_string(),
            Token::LParen => "(".to_string(),
            Token::RParen => ")".to_string(),
            _ => "?".to_string(),
        })
        .collect();
    assert_eq!(joined, input);
}

#[test]
fn next_token_splits_the_input() {
    assert_eq!(get_next_token("12.5+3"), Ok((Token::DecLiteral("12.5"), "+3")));
    assert_eq!(get_next_token("1.2.3"), Ok((Token::DecLiteral("1.2"), ".3")));
    assert_eq!(get_next_token("-4"), Ok((Token::Subtract, "4")));
    assert_eq!(get_next_token(")"), Ok((Token::RParen, "")));
    assert_eq!(get_next_token("#"), Err(ExpressionError::InvalidSyntax(0)));
}

#[test]
fn literals_without_digits_are_found() {
    assert!(check_literals("1.5+2"));
    assert!(!check_literals("."));
    assert!(!check_literals("1+.*2"));
    assert!(check_literals("1+x."));
    assert!(check_literals(""));
}

#[test]
fn str_after_cuts_at_a_byte() {
    assert_eq!(str_after("hello", 2), "llo");
    assert_eq!(str_after("hello", 5), "");
    assert_eq!(str_after("hello", 9), "");
}

#[test]
fn error_message() {
    assert_eq!(ExpressionError::DivisionByZero.message(), "Parse error");
}

#[test]
fn operators_of_one_level_group_to_the_left() {
    assert_eq!(
        parse_num("8-3-2"),
        Ok(Num::Sub(Box::new(Num::Sub(imm(8.0), imm(3.0))), imm(2.0)))
    );
    assert_eq!(
        parse_num("8/4*2"),
        Ok(Num::Mul(Box::new(Num::Div(imm(8.0), imm(4.0))), imm(2.0)))
    );
    assert_eq!(
        parse_num("2(3)(4)"),
        Ok(Num::Mul(Box::new(Num::Mul(imm(2.0), imm(3.0))), imm(4.0)))
    );
}

#[test]
fn a_group_after_a_term_binds_like_a_product() {
    assert_eq!(
        parse_num("1+2(3)"),
        Ok(Num::Add(imm(1.0), Box::new(Num::Mul(imm(2.0), imm(3.0)))))
    );
    assert_eq!(
        parse_num("(1+2)*3"),
        Ok(Num::Mul(Box::new(Num::Add(imm(1.0), imm(2.0))), imm(3.0)))
    );
}

#[test]
fn texts_outside_the_grammar_are_refused() {
    assert!(parse("(1").is_err());
    assert!(parse("1)").is_err());
    assert!(parse("(1)2").is_err());
    assert!(parse("1+*2").is_err());
    assert!(parse("-1").is_err());
    assert!(parse("()").is_err());
}

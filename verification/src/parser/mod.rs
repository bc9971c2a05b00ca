pub mod expression;
pub mod tokenizer;
pub mod util;
pub mod laws;
pub mod grammar;

use vstd::prelude::*;
use vstd::string::StrSliceExecFns;
use crate::parser::expression::{Expression, Func, SpecExpr, func_name, func_named};
use crate::parser::util::str_eq;
use crate::parser::tokenizer::{
    Token,
    SpecToken,
    tokens_view,
    tokenize,
    spec_tokenize,
    literals_are_numbers,
};

verus! {

/// Why an expression could not be parsed or evaluated.
#[derive(Debug, PartialEq)]
pub enum ExpressionError {
    InvalidSyntax(usize),
    UnknownVariable(String),
    DivisionByZero,
}

impl ExpressionError {
    /// The text shown for any of these errors.
    pub fn message(&self) -> (r: &'static str)
        ensures
            r@ == seq!['P', 'a', 'r', 's', 'e', ' ', 'e', 'r', 'r', 'o', 'r'],
    {
        proof {
            reveal_strlit("Parse error");
        }
        "Parse error"
    }
}

/// An entry of the parser's stack: a token not yet reduced, or an expression.
pub enum SpecItem {
    Token(SpecToken),
    Expression(SpecExpr),
}

enum HalfParsed<'t> {
    Token(Token<'t>),
    Expression(Expression),
}

impl<'t> View for HalfParsed<'t> {
    type V = SpecItem;

    closed spec fn view(&self) -> SpecItem {
        match *self {
            HalfParsed::Token(t) => SpecItem::Token(t@),
            HalfParsed::Expression(e) => SpecItem::Expression(e@),
        }
    }
}

spec fn stack_view<'t>(st: Seq<HalfParsed<'t>>) -> Seq<SpecItem> {
    st.map_values(|h: HalfParsed<'t>| h@)
}

/// 1 for a token entry, 0 for an expression.
pub open spec fn token_weight(x: SpecItem) -> nat {
    match x {
        SpecItem::Token(_) => 1,
        SpecItem::Expression(_) => 0,
    }
}

/// How many entries of the stack are tokens.
pub open spec fn count_tokens(st: Seq<SpecItem>) -> nat
    decreases st.len(),
{
    if st.len() == 0 {
        0
    } else {
        count_tokens(st.drop_last()) + token_weight(st.last())
    }
}

/// A bound on the number of steps the parser still takes.
pub open spec fn parse_measure(st: Seq<SpecItem>, rest: Seq<SpecToken>) -> nat {
    3 * rest.len() + st.len() + count_tokens(st)
}

pub proof fn lemma_count_tokens_push(st: Seq<SpecItem>, x: SpecItem)
    ensures
        count_tokens(st.push(x)) == count_tokens(st) + token_weight(x),
{
    assert(st.push(x).drop_last() =~= st);
}

/// Whether a token is one of the four arithmetic operators.
pub open spec fn is_operator(t: SpecToken) -> bool {
    t == SpecToken::Multiply || t == SpecToken::Divide || t == SpecToken::Add || t
        == SpecToken::Subtract
}

/// The expression that operator `op` makes of `a` and `b`.
pub open spec fn binary_expr(op: SpecToken, a: SpecExpr, b: SpecExpr) -> SpecExpr {
    match op {
        SpecToken::Multiply => SpecExpr::Mul(Box::new(a), Box::new(b)),
        SpecToken::Divide => SpecExpr::Div(Box::new(a), Box::new(b)),
        SpecToken::Add => SpecExpr::Add(Box::new(a), Box::new(b)),
        _ => SpecExpr::Sub(Box::new(a), Box::new(b)),
    }
}

/// The stack without its top `k` entries.
pub open spec fn below(st: Seq<SpecItem>, k: int) -> Seq<SpecItem> {
    st.take(st.len() - k)
}

/// Whether the stack ends in `expression operator expression` and the operator
/// may be applied now: an addition or subtraction waits while the next token
/// is `*`, `/` or `(`, which bind tighter.
pub open spec fn binary_ready(st: Seq<SpecItem>, rest: Seq<SpecToken>) -> bool {
    let n = st.len();
    &&& n >= 3
    &&& st[n - 1] is Expression
    &&& st[n - 3] is Expression
    &&& st[n - 2] matches SpecItem::Token(op) && is_operator(op) && (!(op == SpecToken::Add || op
        == SpecToken::Subtract) || rest.len() == 0 || (rest[0] != SpecToken::Multiply && rest[0]
        != SpecToken::Divide && rest[0] != SpecToken::LParen))
}

pub open spec fn reduce_binary(st: Seq<SpecItem>) -> Seq<SpecItem> {
    let n = st.len();
    below(st, 3).push(
        SpecItem::Expression(
            binary_expr(st[n - 2]->Token_0, st[n - 3]->Expression_0, st[n - 1]->Expression_0),
        ),
    )
}

/// Whether the stack ends in `( expression )`.
pub open spec fn paren_ready(st: Seq<SpecItem>) -> bool {
    let n = st.len();
    &&& n >= 3
    &&& st[n - 1] == SpecItem::Token(SpecToken::RParen)
    &&& st[n - 2] is Expression
    &&& st[n - 3] == SpecItem::Token(SpecToken::LParen)
}

/// What `name ( e )` stands for: a call of the function of that name, or
/// else the variable `name` times `e`.
pub open spec fn call_expr(name: Seq<char>, e: SpecExpr) -> SpecExpr {
    match func_named(name) {
        Some(f) => SpecExpr::Func(f, Box::new(e)),
        None => SpecExpr::Mul(Box::new(SpecExpr::Var(name)), Box::new(e)),
    }
}

/// The stack after `( e )` on its top is reduced: a call when a name comes
/// before it, a product when an expression does, else `e` itself.
pub open spec fn reduce_paren(st: Seq<SpecItem>) -> Seq<SpecItem> {
    let base = below(st, 3);
    let e = st[st.len() - 2]->Expression_0;
    if base.len() == 0 {
        base.push(SpecItem::Expression(e))
    } else {
        match base.last() {
            SpecItem::Token(SpecToken::Identifier(name)) => base.drop_last().push(
                SpecItem::Expression(call_expr(name, e)),
            ),
            SpecItem::Token(_) => base.push(SpecItem::Expression(e)),
            SpecItem::Expression(e2) => base.drop_last().push(
                SpecItem::Expression(SpecExpr::Mul(Box::new(e2), Box::new(e))),
            ),
        }
    }
}

/// Whether the parser goes on: tokens are left, or the stack is not a single
/// expression.
pub open spec fn parse_continues(st: Seq<SpecItem>, rest: Seq<SpecToken>) -> bool {
    rest.len() > 0 || st.len() != 1 || st[0] is Token
}

/// Counting the tokens of a stack of at least three entries, the top three one by one.
pub proof fn lemma_count_tokens_top3(st: Seq<SpecItem>)
    requires
        st.len() >= 3,
    ensures
        count_tokens(st) == count_tokens(below(st, 3)) + token_weight(st[st.len() - 3])
            + token_weight(st[st.len() - 2]) + token_weight(st[st.len() - 1]),
{
    let n = st.len();
    let d1 = st.drop_last();
    let d2 = d1.drop_last();
    let d3 = d2.drop_last();
    assert(d3 =~= below(st, 3));
    assert(count_tokens(st) == count_tokens(d1) + token_weight(st[n - 1]));
    assert(count_tokens(d1) == count_tokens(d2) + token_weight(st[n - 2]));
    assert(count_tokens(d2) == count_tokens(d3) + token_weight(st[n - 3]));
}

/// The text of the literal token on top of the stack, if that is one.
pub open spec fn top_literal(st: Seq<SpecItem>) -> Option<Seq<char>> {
    if st.len() > 0 {
        match st.last() {
            SpecItem::Token(SpecToken::DecLiteral(v)) => Some(v),
            _ => None,
        }
    } else {
        None
    }
}

/// The name on top of the stack, if an identifier token is there.
pub open spec fn top_name(st: Seq<SpecItem>) -> Option<Seq<char>> {
    if st.len() > 0 {
        match st.last() {
            SpecItem::Token(SpecToken::Identifier(v)) => Some(v),
            _ => None,
        }
    } else {
        None
    }
}

/// The result of the shift-reduce parser from stack `st` with tokens `rest`
/// still to read. At each step it reduces, in this order: a literal on top to
/// an expression; a name on top, unless `(` follows, to a variable; an
/// operator application (`binary_ready`); a parenthesized group
/// (`paren_ready`). When none applies it shifts the next token, or fails when
/// there is none.
pub open spec fn parse_run(st: Seq<SpecItem>, rest: Seq<SpecToken>) -> Result<SpecExpr, ()>
    decreases parse_measure(st, rest),
{
    if !parse_continues(st, rest) {
        Ok(st[0]->Expression_0)
    } else if top_literal(st) is Some {
        let v = top_literal(st)->Some_0;
        proof {
            lemma_count_tokens_push(st.drop_last(), SpecItem::Expression(SpecExpr::Immediate(v)));
        }
        parse_run(st.drop_last().push(SpecItem::Expression(SpecExpr::Immediate(v))), rest)
    } else if top_name(st) is Some && !(rest.len() > 0 && rest[0] == SpecToken::LParen) {
        let name = top_name(st)->Some_0;
        proof {
            lemma_count_tokens_push(st.drop_last(), SpecItem::Expression(SpecExpr::Var(name)));
        }
        parse_run(st.drop_last().push(SpecItem::Expression(SpecExpr::Var(name))), rest)
    } else if binary_ready(st, rest) {
        proof {
            lemma_reduce_binary_measure(st);
        }
        parse_run(reduce_binary(st), rest)
    } else if paren_ready(st) {
        proof {
            lemma_reduce_paren_measure(st);
        }
        parse_run(reduce_paren(st), rest)
    } else if rest.len() == 0 {
        Err(())
    } else {
        proof {
            lemma_count_tokens_push(st, SpecItem::Token(rest[0]));
        }
        parse_run(st.push(SpecItem::Token(rest[0])), rest.drop_first())
    }
}

pub proof fn lemma_reduce_binary_measure(st: Seq<SpecItem>)
    requires
        st.len() >= 3,
        st[st.len() - 2] is Token,
    ensures
        reduce_binary(st).len() + count_tokens(reduce_binary(st)) < st.len() + count_tokens(st),
{
    let b = below(st, 3);
    lemma_count_tokens_push(b, reduce_binary(st).last());
    lemma_count_tokens_top3(st);
}

pub proof fn lemma_reduce_paren_measure(st: Seq<SpecItem>)
    requires
        paren_ready(st),
    ensures
        reduce_paren(st).len() + count_tokens(reduce_paren(st)) < st.len() + count_tokens(st),
{
    let n = st.len();
    let b = below(st, 3);
    lemma_count_tokens_top3(st);
    let e = st[n - 2]->Expression_0;
    if b.len() == 0 {
        lemma_count_tokens_push(b, SpecItem::Expression(e));
    } else {
        let x = reduce_paren(st).last();
        match b.last() {
            SpecItem::Token(SpecToken::Identifier(name)) => {
                lemma_count_tokens_push(b.drop_last(), x);
                assert(count_tokens(b) == count_tokens(b.drop_last()) + 1);
            },
            SpecItem::Token(_) => {
                lemma_count_tokens_push(b, x);
            },
            SpecItem::Expression(e2) => {
                lemma_count_tokens_push(b.drop_last(), x);
                assert(count_tokens(b) == count_tokens(b.drop_last()));
            },
        }
    }
}


/// The function called `name`, if any.
fn lookup_func(name: &str) -> (r: Option<Func>)
    ensures
        r == func_named(name@),
{
    proof {
        reveal_strlit("sin");
        reveal_strlit("cos");
        reveal_strlit("tan");
        reveal_strlit("arcsin");
        reveal_strlit("arccos");
        reveal_strlit("arctan");
        reveal_strlit("gamma");
        reveal_strlit("log");
        reveal_strlit("ln");
        assert("sin"@ =~= func_name(Func::Sin));
        assert("cos"@ =~= func_name(Func::Cos));
        assert("tan"@ =~= func_name(Func::Tan));
        assert("arcsin"@ =~= func_name(Func::Arcsin));
        assert("arccos"@ =~= func_name(Func::Arccos));
        assert("arctan"@ =~= func_name(Func::Arctan));
        assert("gamma"@ =~= func_name(Func::Gamma));
        assert("log"@ =~= func_name(Func::Log));
        assert("ln"@ =~= func_name(Func::Ln));
    }
    if str_eq(name, "sin") {
        Some(Func::Sin)
    } else if str_eq(name, "cos") {
        Some(Func::Cos)
    } else if str_eq(name, "tan") {
        Some(Func::Tan)
    } else if str_eq(name, "arcsin") {
        Some(Func::Arcsin)
    } else if str_eq(name, "arccos") {
        Some(Func::Arccos)
    } else if str_eq(name, "arctan") {
        Some(Func::Arctan)
    } else if str_eq(name, "gamma") {
        Some(Func::Gamma)
    } else if str_eq(name, "log") {
        Some(Func::Log)
    } else if str_eq(name, "ln") {
        Some(Func::Ln)
    } else {
        None
    }
}

impl<'t> HalfParsed<'t> {
    fn is_expression(&self) -> (r: bool)
        ensures
            r == (self@ is Expression),
    {
        match self {
            HalfParsed::Token(_) => false,
            HalfParsed::Expression(_) => true,
        }
    }

    fn is_token(&self) -> (r: bool)
        ensures
            r == (self@ is Token),
    {
        match self {
            HalfParsed::Token(_) => true,
            HalfParsed::Expression(_) => false,
        }
    }

    fn expression(self) -> (r: Expression)
        requires
            self@ is Expression,
        ensures
            self@ == SpecItem::Expression(r@),
    {
        match self {
            HalfParsed::Token(_) => {
                assert(false);
                Expression::Var(String::new())
            },
            HalfParsed::Expression(b) => b,
        }
    }

    fn token(self) -> (r: Token<'t>)
        requires
            self@ is Token,
        ensures
            self@ == SpecItem::Token(r@),
    {
        match self {
            HalfParsed::Token(t) => t,
            HalfParsed::Expression(_) => {
                assert(false);
                Token::Whitespace
            },
        }
    }

    /// Whether this entry is a token without text equal to `other`.
    fn is_plain_token(&self, other: Token<'t>) -> (r: bool)
        requires
            !(other is DecLiteral) && !(other is Identifier),
        ensures
            r == (self@ == SpecItem::Token(other@)),
    {
        match self {
            HalfParsed::Token(t) => plain_token_eq(*t, other),
            HalfParsed::Expression(_) => false,
        }
    }
}

/// Whether token `t` equals `other`, a token without text.
fn plain_token_eq<'t>(t: Token<'t>, other: Token<'t>) -> (r: bool)
    requires
        !(other is DecLiteral) && !(other is Identifier),
    ensures
        r == (t@ == other@),
{
    match (t, other) {
        (Token::Multiply, Token::Multiply) => true,
        (Token::Divide, Token::Divide) => true,
        (Token::Add, Token::Add) => true,
        (Token::Subtract, Token::Subtract) => true,
        (Token::Equals, Token::Equals) => true,
        (Token::LParen, Token::LParen) => true,
        (Token::RParen, Token::RParen) => true,
        (Token::Whitespace, Token::Whitespace) => true,
        _ => false,
    }
}

/// The token at `next`, if any, equals `other`, a token without text.
fn next_is<'t>(tokens: &Vec<Token<'t>>, next: usize, other: Token<'t>) -> (r: bool)
    requires
        !(other is DecLiteral) && !(other is Identifier),
    ensures
        r == (next < tokens@.len() && tokens@[next as int]@ == other@),
{
    next < tokens.len() && plain_token_eq(tokens[next], other)
}

/// Parses a sequence of tokens with a shift-reduce parser that gives `*`
/// and `/` precedence over `+` and `-`, groups operators of one precedence
/// from the left, reads `a ( b )` as a product and `name ( b )` as a call.
fn parse_tokens<'t>(tokens: &Vec<Token<'t>>) -> (r: Result<Expression, ExpressionError>)
    requires
        tokens@.len() > 0,
    ensures
        match r {
            Ok(e) => parse_run(Seq::empty(), tokens_view(tokens@)) == Ok::<SpecExpr, ()>(e@),
            Err(err) => parse_run(Seq::empty(), tokens_view(tokens@)) is Err && err
                == ExpressionError::InvalidSyntax(0),
        },
{
    let mut next: usize = 0;
    let mut stack: Vec<HalfParsed<'t>> = Vec::new();
    let ghost whole = parse_run(Seq::empty(), tokens_view(tokens@));
    assert(stack_view(stack@) =~= Seq::<SpecItem>::empty());
    assert(tokens_view(tokens@).skip(0) =~= tokens_view(tokens@));
    while next < tokens.len() || stack.len() > 1 || stack[0].is_token()
        invariant
            next <= tokens@.len(),
            stack@.len() >= 1 || next < tokens@.len(),
            parse_run(stack_view(stack@), tokens_view(tokens@).skip(next as int)) == whole,
            whole == parse_run(Seq::empty(), tokens_view(tokens@)),
        decreases parse_measure(stack_view(stack@), tokens_view(tokens@).skip(next as int)),
    {
        let ghost sv = stack_view(stack@);
        let ghost rest = tokens_view(tokens@).skip(next as int);
        assert(parse_continues(sv, rest));
        let n = stack.len();
        // A literal on top becomes an expression.
        if n > 0 {
            if let HalfParsed::Token(Token::DecLiteral(val)) = &stack[n - 1] {
                let val: &str = *val;
                assert(top_literal(sv) == Some(val@));
                stack.pop();
                let item = HalfParsed::Expression(Expression::Immediate(val.to_owned()));
                stack.push(item);
                assert(stack_view(stack@) =~= sv.drop_last().push(item@));
                proof {
                    lemma_count_tokens_push(sv.drop_last(), item@);
                }
                continue;
            }
        }
        assert(top_literal(sv) is None);
        // A name on top becomes a variable unless a parenthesis follows.
        if n > 0 {
            if let HalfParsed::Token(Token::Identifier(val)) = &stack[n - 1] {
                if !next_is(tokens, next, Token::LParen) {
                    let val: &str = *val;
                    assert(top_name(sv) == Some(val@));
                    stack.pop();
                    let item = HalfParsed::Expression(Expression::Var(val.to_owned()));
                    stack.push(item);
                    assert(stack_view(stack@) =~= sv.drop_last().push(item@));
                    proof {
                        lemma_count_tokens_push(sv.drop_last(), item@);
                    }
                    continue;
                }
            }
        }
        assert(!(top_name(sv) is Some && !(rest.len() > 0 && rest[0] == SpecToken::LParen)));
        // An operator between two expressions.
        if n >= 3 && stack[n - 1].is_expression() && stack[n - 2].is_token()
            && stack[n - 3].is_expression() {
            let op = match &stack[n - 2] {
                HalfParsed::Token(t) => *t,
                HalfParsed::Expression(_) => Token::Whitespace,
            };
            // Multiplication and division bind tighter.
            if !(plain_token_eq(op, Token::Add) || plain_token_eq(op, Token::Subtract)) || (
            next >= tokens.len() || (!next_is(tokens, next, Token::Multiply) && !next_is(
                tokens,
                next,
                Token::Divide,
            ) && !next_is(tokens, next, Token::LParen))) {
                let is_op = match op {
                    Token::Multiply => true,
                    Token::Divide => true,
                    Token::Add => true,
                    Token::Subtract => true,
                    _ => false,
                };
                if is_op {
                    assert(binary_ready(sv, rest));
                    let expr1 = stack.pop().unwrap().expression();
                    stack.pop();
                    let expr2 = stack.pop().unwrap().expression();
                    let combined = match op {
                        Token::Multiply => Expression::Mul(Box::new(expr2), Box::new(expr1)),
                        Token::Divide => Expression::Div(Box::new(expr2), Box::new(expr1)),
                        Token::Add => Expression::Add(Box::new(expr2), Box::new(expr1)),
                        _ => Expression::Sub(Box::new(expr2), Box::new(expr1)),
                    };
                    let item = HalfParsed::Expression(combined);
                    stack.push(item);
                    assert(stack_view(stack@) =~= reduce_binary(sv));
                    proof {
                        lemma_reduce_binary_measure(sv);
                    }
                    continue;
                }
            }
        }
        assert(!binary_ready(sv, rest));
        // A parenthesized group: a call, a product, or the group itself.
        if n >= 3 && stack[n - 1].is_plain_token(Token::RParen) && stack[n - 2].is_expression()
            && stack[n - 3].is_plain_token(Token::LParen) {
            assert(paren_ready(sv));
            stack.pop();
            let expr = stack.pop().unwrap().expression();
            stack.pop();
            let ghost base = stack_view(stack@);
            assert(base =~= below(sv, 3));
            assert(expr@ == sv[n - 2]->Expression_0);
            let m = stack.len();
            if m > 0 {
                let pre_name: Option<&str> = match &stack[m - 1] {
                    HalfParsed::Token(Token::Identifier(name)) => Some(*name),
                    _ => None,
                };
                let pre_is_token = stack[m - 1].is_token();
                if let Some(name) = pre_name {
                    stack.pop();
                    let ghost e = expr@;
                    let called = match lookup_func(name) {
                        Some(f) => {
                            let c = Expression::Func(f, Box::new(expr));
                            assert(c@ == call_expr(name@, e));
                            c
                        },
                        None => {
                            let v = Expression::Var(name.to_owned());
                            assert(v@ == SpecExpr::Var(name@));
                            let c = Expression::Mul(Box::new(v), Box::new(expr));
                            assert(c@ == call_expr(name@, e));
                            c
                        },
                    };
                    let item = HalfParsed::Expression(called);
                    stack.push(item);
                    assert(base.last() == SpecItem::Token(SpecToken::Identifier(name@)));
                    assert(item@ == SpecItem::Expression(call_expr(name@, e)));
                    assert(stack_view(stack@) =~= base.drop_last().push(item@));
                } else if pre_is_token {
                    let item = HalfParsed::Expression(expr);
                    stack.push(item);
                    assert(base.last() is Token);
                    assert(!(base.last()->Token_0 is Identifier));
                    assert(stack_view(stack@) =~= base.push(item@));
                } else {
                    let expr2 = stack.pop().unwrap().expression();
                    let item = HalfParsed::Expression(Expression::Mul(Box::new(expr2), Box::new(expr)));
                    stack.push(item);
                    assert(stack_view(stack@) =~= base.drop_last().push(item@));
                }
            } else {
                let item = HalfParsed::Expression(expr);
                stack.push(item);
                assert(stack_view(stack@) =~= base.push(item@));
            }
            assert(stack_view(stack@) =~= reduce_paren(sv));
            proof {
                lemma_reduce_paren_measure(sv);
            }
            continue;
        }
        assert(!paren_ready(sv));
        // Shift the next token, or fail when none is left.
        if next >= tokens.len() {
            assert(rest.len() == 0);
            assert(parse_run(sv, rest) is Err);
            return Err(ExpressionError::InvalidSyntax(0));
        }
        let item = HalfParsed::Token(tokens[next]);
        stack.push(item);
        next = next + 1;
        assert(stack_view(stack@) =~= sv.push(item@));
        assert(tokens_view(tokens@).skip(next as int) =~= rest.drop_first());
        proof {
            lemma_count_tokens_push(sv, item@);
        }
    }
    let ghost sv = stack_view(stack@);
    assert(sv[0] == stack@[0]@);
    let last = stack.pop().unwrap();
    Ok(last.expression())
}

/// What `parse` gives for `s`: the tokens of `s` parsed, the literal `0`
/// for an input without tokens.
pub open spec fn spec_parse(s: Seq<char>) -> Result<SpecExpr, ()> {
    match spec_tokenize(s) {
        Err(()) => Err(()),
        Ok(ts) => if ts.len() == 0 {
            Ok(SpecExpr::Immediate(seq!['0']))
        } else {
            parse_run(Seq::empty(), ts)
        },
    }
}

/// Parses a calculator expression such as `1+2*3` or `2(4+5)`.
pub fn parse(input: &str) -> (r: Result<Expression, ExpressionError>)
    requires
        literals_are_numbers(input@),
    ensures
        match r {
            Ok(e) => spec_parse(input@) == Ok::<SpecExpr, ()>(e@),
            Err(err) => spec_parse(input@) is Err && err == ExpressionError::InvalidSyntax(0),
        },
{
    let tokens = tokenize(input)?;
    if tokens.len() == 0 {
        proof {
            reveal_strlit("0");
            assert("0"@ =~= seq!['0']);
        }
        return Ok(Expression::Immediate("0".to_owned()));
    }
    parse_tokens(&tokens)
}

} // verus!

use vstd::prelude::*;

verus! {

/// A parsed calculator expression.
///
/// `Immediate` holds the text of a decimal literal (for instance `"0.2"`);
/// its value as a number is read when the expression is evaluated.
#[derive(Debug, PartialEq)]
pub enum Expression {
    Immediate(String),
    Add(Box<Expression>, Box<Expression>),
    Sub(Box<Expression>, Box<Expression>),
    Mul(Box<Expression>, Box<Expression>),
    Div(Box<Expression>, Box<Expression>),
    Func(Func, Box<Expression>),
    Var(String),
}

impl Clone for Expression {
    fn clone(&self) -> (r: Self)
        ensures
            r@ == self@,
        decreases self,
    {
        match self {
            Expression::Immediate(t) => Expression::Immediate(t.clone()),
            Expression::Add(a, b) => Expression::Add(
                Box::new((**a).clone()),
                Box::new((**b).clone()),
            ),
            Expression::Sub(a, b) => Expression::Sub(
                Box::new((**a).clone()),
                Box::new((**b).clone()),
            ),
            Expression::Mul(a, b) => Expression::Mul(
                Box::new((**a).clone()),
                Box::new((**b).clone()),
            ),
            Expression::Div(a, b) => Expression::Div(
                Box::new((**a).clone()),
                Box::new((**b).clone()),
            ),
            Expression::Func(f, a) => Expression::Func(*f, Box::new((**a).clone())),
            Expression::Var(n) => Expression::Var(n.clone()),
        }
    }
}

/// The functions a calculator expression can call.
#[derive(Debug, PartialEq, Clone, Copy)]
pub enum Func {
    Sin,
    Cos,
    Tan,
    Arcsin,
    Arccos,
    Arctan,
    Gamma,
    Log,
    Ln,
}

/// The mathematical model of an expression: texts become character sequences.
pub enum SpecExpr {
    Immediate(Seq<char>),
    Add(Box<SpecExpr>, Box<SpecExpr>),
    Sub(Box<SpecExpr>, Box<SpecExpr>),
    Mul(Box<SpecExpr>, Box<SpecExpr>),
    Div(Box<SpecExpr>, Box<SpecExpr>),
    Func(Func, Box<SpecExpr>),
    Var(Seq<char>),
}

pub open spec fn expr_view(e: Expression) -> SpecExpr
    decreases e,
{
    match e {
        Expression::Immediate(t) => SpecExpr::Immediate(t@),
        Expression::Add(a, b) => SpecExpr::Add(Box::new(expr_view(*a)), Box::new(expr_view(*b))),
        Expression::Sub(a, b) => SpecExpr::Sub(Box::new(expr_view(*a)), Box::new(expr_view(*b))),
        Expression::Mul(a, b) => SpecExpr::Mul(Box::new(expr_view(*a)), Box::new(expr_view(*b))),
        Expression::Div(a, b) => SpecExpr::Div(Box::new(expr_view(*a)), Box::new(expr_view(*b))),
        Expression::Func(f, a) => SpecExpr::Func(f, Box::new(expr_view(*a))),
        Expression::Var(n) => SpecExpr::Var(n@),
    }
}

impl View for Expression {
    type V = SpecExpr;

    open spec fn view(&self) -> SpecExpr {
        expr_view(*self)
    }
}

/// The name by which an expression calls a function.
pub open spec fn func_name(f: Func) -> Seq<char> {
    match f {
        Func::Sin => seq!['s', 'i', 'n'],
        Func::Cos => seq!['c', 'o', 's'],
        Func::Tan => seq!['t', 'a', 'n'],
        Func::Arcsin => seq!['a', 'r', 'c', 's', 'i', 'n'],
        Func::Arccos => seq!['a', 'r', 'c', 'c', 'o', 's'],
        Func::Arctan => seq!['a', 'r', 'c', 't', 'a', 'n'],
        Func::Gamma => seq!['g', 'a', 'm', 'm', 'a'],
        Func::Log => seq!['l', 'o', 'g'],
        Func::Ln => seq!['l', 'n'],
    }
}

/// The function called `name`, if any.
pub open spec fn func_named(name: Seq<char>) -> Option<Func> {
    if name == func_name(Func::Sin) {
        Some(Func::Sin)
    } else if name == func_name(Func::Cos) {
        Some(Func::Cos)
    } else if name == func_name(Func::Tan) {
        Some(Func::Tan)
    } else if name == func_name(Func::Arcsin) {
        Some(Func::Arcsin)
    } else if name == func_name(Func::Arccos) {
        Some(Func::Arccos)
    } else if name == func_name(Func::Arctan) {
        Some(Func::Arctan)
    } else if name == func_name(Func::Gamma) {
        Some(Func::Gamma)
    } else if name == func_name(Func::Log) {
        Some(Func::Log)
    } else if name == func_name(Func::Ln) {
        Some(Func::Ln)
    } else {
        None
    }
}

} // verus!

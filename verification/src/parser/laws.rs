use vstd::prelude::*;
use crate::parser::expression::{SpecExpr, Func, func_name, func_named};
use crate::parser::tokenizer::SpecToken;
use crate::parser::{
    SpecItem,
    parse_run,
    parse_continues,
    parse_measure,
    count_tokens,
    top_literal,
    top_name,
    binary_ready,
    reduce_binary,
    binary_expr,
    paren_ready,
    reduce_paren,
    call_expr,
    below,
    is_operator,
    lemma_count_tokens_push,
    lemma_reduce_binary_measure,
    lemma_reduce_paren_measure,
};

verus! {

/// Whether a token is an operand: a literal or a name.
pub open spec fn is_operand(t: SpecToken) -> bool {
    t is DecLiteral || t is Identifier
}

/// The operands among `ts`, in order.
pub open spec fn operands(ts: Seq<SpecToken>) -> Seq<SpecToken>
    decreases ts.len(),
{
    if ts.len() == 0 {
        Seq::empty()
    } else if is_operand(ts[0]) {
        seq![ts[0]] + operands(ts.drop_first())
    } else {
        operands(ts.drop_first())
    }
}

/// The operands an expression was built from, left to right: its literals,
/// its variables and the names of the functions it calls.
pub open spec fn expr_leaves(e: SpecExpr) -> Seq<SpecToken>
    decreases e,
{
    match e {
        SpecExpr::Immediate(t) => seq![SpecToken::DecLiteral(t)],
        SpecExpr::Var(n) => seq![SpecToken::Identifier(n)],
        SpecExpr::Add(a, b) => expr_leaves(*a) + expr_leaves(*b),
        SpecExpr::Sub(a, b) => expr_leaves(*a) + expr_leaves(*b),
        SpecExpr::Mul(a, b) => expr_leaves(*a) + expr_leaves(*b),
        SpecExpr::Div(a, b) => expr_leaves(*a) + expr_leaves(*b),
        SpecExpr::Func(f, a) => seq![SpecToken::Identifier(func_name(f))] + expr_leaves(*a),
    }
}

pub open spec fn item_leaves(x: SpecItem) -> Seq<SpecToken> {
    match x {
        SpecItem::Token(t) => if is_operand(t) {
            seq![t]
        } else {
            Seq::empty()
        },
        SpecItem::Expression(e) => expr_leaves(e),
    }
}

pub open spec fn stack_leaves(st: Seq<SpecItem>) -> Seq<SpecToken>
    decreases st.len(),
{
    if st.len() == 0 {
        Seq::empty()
    } else {
        stack_leaves(st.drop_last()) + item_leaves(st.last())
    }
}

proof fn lemma_stack_leaves_push(st: Seq<SpecItem>, x: SpecItem)
    ensures
        stack_leaves(st.push(x)) == stack_leaves(st) + item_leaves(x),
{
    assert(st.push(x).drop_last() =~= st);
}

proof fn lemma_stack_leaves_top3(st: Seq<SpecItem>)
    requires
        st.len() >= 3,
    ensures
        stack_leaves(st) =~= stack_leaves(below(st, 3)) + item_leaves(st[st.len() - 3])
            + item_leaves(st[st.len() - 2]) + item_leaves(st[st.len() - 1]),
{
    let n = st.len();
    let d1 = st.drop_last();
    let d2 = d1.drop_last();
    let d3 = d2.drop_last();
    assert(d3 =~= below(st, 3));
    assert(stack_leaves(st) == stack_leaves(d1) + item_leaves(st[n - 1]));
    assert(stack_leaves(d1) == stack_leaves(d2) + item_leaves(st[n - 2]));
    assert(stack_leaves(d2) == stack_leaves(d3) + item_leaves(st[n - 3]));
}

proof fn lemma_func_named_name(name: Seq<char>)
    ensures
        func_named(name) matches Some(f) ==> func_name(f) == name,
{
}

proof fn lemma_reduce_binary_leaves(st: Seq<SpecItem>, rest: Seq<SpecToken>)
    requires
        binary_ready(st, rest),
    ensures
        stack_leaves(reduce_binary(st)) =~= stack_leaves(st),
{
    let n = st.len();
    let b = below(st, 3);
    lemma_stack_leaves_top3(st);
    lemma_stack_leaves_push(b, reduce_binary(st).last());
    assert(reduce_binary(st) =~= b.push(reduce_binary(st).last()));
    let a = st[n - 3]->Expression_0;
    let c = st[n - 1]->Expression_0;
    let op = st[n - 2]->Token_0;
    assert(expr_leaves(binary_expr(op, a, c)) =~= expr_leaves(a) + expr_leaves(c));
}

proof fn lemma_reduce_paren_leaves(st: Seq<SpecItem>)
    requires
        paren_ready(st),
    ensures
        stack_leaves(reduce_paren(st)) =~= stack_leaves(st),
{
    let n = st.len();
    let b = below(st, 3);
    lemma_stack_leaves_top3(st);
    let e = st[n - 2]->Expression_0;
    let x = reduce_paren(st).last();
    if b.len() == 0 {
        lemma_stack_leaves_push(b, x);
    } else {
        assert(stack_leaves(b) == stack_leaves(b.drop_last()) + item_leaves(b.last()));
        match b.last() {
            SpecItem::Token(SpecToken::Identifier(name)) => {
                lemma_stack_leaves_push(b.drop_last(), x);
                lemma_func_named_name(name);
                match func_named(name) {
                    Some(f) => {
                        assert(func_name(f) == name);
                        assert(expr_leaves(SpecExpr::Func(f, Box::new(e))) == seq![
                            SpecToken::Identifier(func_name(f)),
                        ] + expr_leaves(e));
                    },
                    None => {
                        assert(expr_leaves(SpecExpr::Var(name)) == seq![
                            SpecToken::Identifier(name),
                        ]);
                    },
                }
                assert(expr_leaves(call_expr(name, e)) =~= seq![SpecToken::Identifier(name)]
                    + expr_leaves(e));
            },
            SpecItem::Token(_) => {
                lemma_stack_leaves_push(b, x);
            },
            SpecItem::Expression(e2) => {
                lemma_stack_leaves_push(b.drop_last(), x);
                assert(expr_leaves(SpecExpr::Mul(Box::new(e2), Box::new(e))) =~= expr_leaves(e2)
                    + expr_leaves(e));
            },
        }
    }
}

proof fn lemma_run_leaves(st: Seq<SpecItem>, rest: Seq<SpecToken>)
    requires
        parse_run(st, rest) is Ok,
    ensures
        expr_leaves(parse_run(st, rest)->Ok_0) == stack_leaves(st) + operands(rest),
    decreases parse_measure(st, rest),
{
    if !parse_continues(st, rest) {
        assert(st.drop_last() =~= Seq::<SpecItem>::empty());
        assert(stack_leaves(st) == stack_leaves(st.drop_last()) + item_leaves(st.last()));
        assert(rest =~= Seq::<SpecToken>::empty());
        assert(expr_leaves(st[0]->Expression_0) =~= stack_leaves(st) + operands(rest));
    } else if top_literal(st) is Some {
        let v = top_literal(st)->Some_0;
        let x = SpecItem::Expression(SpecExpr::Immediate(v));
        lemma_count_tokens_push(st.drop_last(), x);
        lemma_stack_leaves_push(st.drop_last(), x);
        lemma_run_leaves(st.drop_last().push(x), rest);
    } else if top_name(st) is Some && !(rest.len() > 0 && rest[0] == SpecToken::LParen) {
        let name = top_name(st)->Some_0;
        let x = SpecItem::Expression(SpecExpr::Var(name));
        lemma_count_tokens_push(st.drop_last(), x);
        lemma_stack_leaves_push(st.drop_last(), x);
        lemma_run_leaves(st.drop_last().push(x), rest);
    } else if binary_ready(st, rest) {
        lemma_reduce_binary_measure(st);
        lemma_reduce_binary_leaves(st, rest);
        lemma_run_leaves(reduce_binary(st), rest);
    } else if paren_ready(st) {
        lemma_reduce_paren_measure(st);
        lemma_reduce_paren_leaves(st);
        lemma_run_leaves(reduce_paren(st), rest);
    } else {
        let x = SpecItem::Token(rest[0]);
        lemma_count_tokens_push(st, x);
        lemma_stack_leaves_push(st, x);
        lemma_run_leaves(st.push(x), rest.drop_first());
        assert(stack_leaves(st) + item_leaves(x) + operands(rest.drop_first()) =~= stack_leaves(st)
            + operands(rest));
    }
}

/// Parsing keeps every operand and its place: the literals and names of a
/// successfully parsed token sequence are, in order, those of the expression
/// it gives (a call counts its function's name).
pub proof fn law_parse_keeps_operands(ts: Seq<SpecToken>)
    requires
        parse_run(Seq::empty(), ts) is Ok,
    ensures
        expr_leaves(parse_run(Seq::empty(), ts)->Ok_0) == operands(ts),
{
    lemma_run_leaves(Seq::empty(), ts);
    assert(stack_leaves(Seq::<SpecItem>::empty()) + operands(ts) =~= operands(ts));
}


proof fn lemma_step_literal(st: Seq<SpecItem>, rest: Seq<SpecToken>, v: Seq<char>)
    requires
        st.len() > 0,
        st.last() == SpecItem::Token(SpecToken::DecLiteral(v)),
    ensures
        parse_run(st, rest) == parse_run(
            st.drop_last().push(SpecItem::Expression(SpecExpr::Immediate(v))),
            rest,
        ),
{
    assert(top_literal(st) == Some(v));
}

proof fn lemma_step_binary(st: Seq<SpecItem>, rest: Seq<SpecToken>)
    requires
        st.len() > 0,
        st.last() is Expression,
        binary_ready(st, rest),
    ensures
        parse_run(st, rest) == parse_run(reduce_binary(st), rest),
{
}

proof fn lemma_step_shift(st: Seq<SpecItem>, rest: Seq<SpecToken>)
    requires
        rest.len() > 0,
        st.len() == 0 || !(st.last() matches SpecItem::Token(t) && (t is DecLiteral
            || t is Identifier)),
        !binary_ready(st, rest),
        !paren_ready(st),
    ensures
        parse_run(st, rest) == parse_run(st.push(SpecItem::Token(rest[0])), rest.drop_first()),
{
}

/// Whether operator `op2` binds tighter than `op1`.
pub open spec fn binds_tighter(op2: SpecToken, op1: SpecToken) -> bool {
    (op2 == SpecToken::Multiply || op2 == SpecToken::Divide) && (op1 == SpecToken::Add || op1
        == SpecToken::Subtract)
}

/// Order of operations: in `a op1 b op2 c`, `op2` is applied first exactly
/// when it binds tighter (`*` or `/` after `+` or `-`); otherwise the
/// operators group from the left.
pub proof fn law_order_of_operations(
    a: Seq<char>,
    op1: SpecToken,
    b: Seq<char>,
    op2: SpecToken,
    c: Seq<char>,
)
    requires
        is_operator(op1),
        is_operator(op2),
    ensures
        parse_run(
            Seq::empty(),
            seq![
                SpecToken::DecLiteral(a),
                op1,
                SpecToken::DecLiteral(b),
                op2,
                SpecToken::DecLiteral(c),
            ],
        ) == Ok::<SpecExpr, ()>(
            if binds_tighter(op2, op1) {
                binary_expr(
                    op1,
                    SpecExpr::Immediate(a),
                    binary_expr(op2, SpecExpr::Immediate(b), SpecExpr::Immediate(c)),
                )
            } else {
                binary_expr(
                    op2,
                    binary_expr(op1, SpecExpr::Immediate(a), SpecExpr::Immediate(b)),
                    SpecExpr::Immediate(c),
                )
            },
        ),
{
    let ta = SpecToken::DecLiteral(a);
    let tb = SpecToken::DecLiteral(b);
    let tc = SpecToken::DecLiteral(c);
    let ea = SpecExpr::Immediate(a);
    let eb = SpecExpr::Immediate(b);
    let ec = SpecExpr::Immediate(c);
    let ia = SpecItem::Expression(ea);
    let ib = SpecItem::Expression(eb);
    let ic = SpecItem::Expression(ec);
    let o1 = SpecItem::Token(op1);
    let o2 = SpecItem::Token(op2);
    let r0 = seq![ta, op1, tb, op2, tc];
    let r1 = seq![op1, tb, op2, tc];
    let r2 = seq![tb, op2, tc];
    let r3 = seq![op2, tc];
    let r4 = seq![tc];
    let r5 = Seq::<SpecToken>::empty();
    assert(r0.drop_first() =~= r1);
    assert(r1.drop_first() =~= r2);
    assert(r2.drop_first() =~= r3);
    assert(r3.drop_first() =~= r4);
    assert(r4.drop_first() =~= r5);
    let e0 = Seq::<SpecItem>::empty();
    lemma_step_shift(e0, r0);
    let s1 = e0.push(SpecItem::Token(ta));
    lemma_step_literal(s1, r1, a);
    let s2 = seq![ia];
    assert(s1.drop_last().push(ia) =~= s2);
    lemma_step_shift(s2, r1);
    let s3 = seq![ia, o1];
    assert(s2.push(o1) =~= s3);
    lemma_step_shift(s3, r2);
    let s4 = seq![ia, o1, SpecItem::Token(tb)];
    assert(s3.push(SpecItem::Token(tb)) =~= s4);
    lemma_step_literal(s4, r3, b);
    let s5 = seq![ia, o1, ib];
    assert(s4.drop_last().push(ib) =~= s5);
    if binds_tighter(op2, op1) {
        assert(!binary_ready(s5, r3));
        lemma_step_shift(s5, r3);
        let s6 = seq![ia, o1, ib, o2];
        assert(s5.push(o2) =~= s6);
        lemma_step_shift(s6, r4);
        let s7 = seq![ia, o1, ib, o2, SpecItem::Token(tc)];
        assert(s6.push(SpecItem::Token(tc)) =~= s7);
        lemma_step_literal(s7, r5, c);
        let s8 = seq![ia, o1, ib, o2, ic];
        assert(s7.drop_last().push(ic) =~= s8);
        lemma_step_binary(s8, r5);
        let inner = binary_expr(op2, eb, ec);
        let s9 = seq![ia, o1, SpecItem::Expression(inner)];
        assert(reduce_binary(s8) =~= s9);
        lemma_step_binary(s9, r5);
        let s10 = seq![SpecItem::Expression(binary_expr(op1, ea, inner))];
        assert(reduce_binary(s9) =~= s10);
    } else {
        assert(binary_ready(s5, r3));
        lemma_step_binary(s5, r3);
        let left = binary_expr(op1, ea, eb);
        let il = SpecItem::Expression(left);
        let s6 = seq![il];
        assert(reduce_binary(s5) =~= s6);
        lemma_step_shift(s6, r3);
        let s7 = seq![il, o2];
        assert(s6.push(o2) =~= s7);
        lemma_step_shift(s7, r4);
        let s8 = seq![il, o2, SpecItem::Token(tc)];
        assert(s7.push(SpecItem::Token(tc)) =~= s8);
        lemma_step_literal(s8, r5, c);
        let s9 = seq![il, o2, ic];
        assert(s8.drop_last().push(ic) =~= s9);
        lemma_step_binary(s9, r5);
        let s10 = seq![SpecItem::Expression(binary_expr(op2, left, ec))];
        assert(reduce_binary(s9) =~= s10);
    }
}


proof fn lemma_step_paren(st: Seq<SpecItem>, rest: Seq<SpecToken>)
    requires
        st.len() > 0,
        st.last() == SpecItem::Token(SpecToken::RParen),
        paren_ready(st),
    ensures
        parse_run(st, rest) == parse_run(reduce_paren(st), rest),
{
}

/// A single literal parses to itself.
pub proof fn law_single_literal(a: Seq<char>)
    ensures
        parse_run(Seq::empty(), seq![SpecToken::DecLiteral(a)]) == Ok::<SpecExpr, ()>(
            SpecExpr::Immediate(a),
        ),
{
    let r0 = seq![SpecToken::DecLiteral(a)];
    let r1 = Seq::<SpecToken>::empty();
    assert(r0.drop_first() =~= r1);
    let e0 = Seq::<SpecItem>::empty();
    lemma_step_shift(e0, r0);
    let s1 = e0.push(SpecItem::Token(SpecToken::DecLiteral(a)));
    lemma_step_literal(s1, r1, a);
    assert(s1.drop_last().push(SpecItem::Expression(SpecExpr::Immediate(a))) =~= seq![
        SpecItem::Expression(SpecExpr::Immediate(a)),
    ]);
}

/// Implicit multiplication: `a ( b op c )` is `a` times the group, for every
/// operator `op`.
pub proof fn law_implicit_multiplication(a: Seq<char>, b: Seq<char>, op: SpecToken, c: Seq<char>)
    requires
        is_operator(op),
    ensures
        parse_run(
            Seq::empty(),
            seq![
                SpecToken::DecLiteral(a),
                SpecToken::LParen,
                SpecToken::DecLiteral(b),
                op,
                SpecToken::DecLiteral(c),
                SpecToken::RParen,
            ],
        ) == Ok::<SpecExpr, ()>(
            SpecExpr::Mul(
                Box::new(SpecExpr::Immediate(a)),
                Box::new(binary_expr(op, SpecExpr::Immediate(b), SpecExpr::Immediate(c))),
            ),
        ),
{
    let ta = SpecToken::DecLiteral(a);
    let tb = SpecToken::DecLiteral(b);
    let tc = SpecToken::DecLiteral(c);
    let lp = SpecToken::LParen;
    let rp = SpecToken::RParen;
    let ia = SpecItem::Expression(SpecExpr::Immediate(a));
    let ib = SpecItem::Expression(SpecExpr::Immediate(b));
    let ic = SpecItem::Expression(SpecExpr::Immediate(c));
    let il = SpecItem::Token(lp);
    let io = SpecItem::Token(op);
    let ir = SpecItem::Token(rp);
    let r0 = seq![ta, lp, tb, op, tc, rp];
    let r1 = seq![lp, tb, op, tc, rp];
    let r2 = seq![tb, op, tc, rp];
    let r3 = seq![op, tc, rp];
    let r4 = seq![tc, rp];
    let r5 = seq![rp];
    let r6 = Seq::<SpecToken>::empty();
    assert(r0.drop_first() =~= r1);
    assert(r1.drop_first() =~= r2);
    assert(r2.drop_first() =~= r3);
    assert(r3.drop_first() =~= r4);
    assert(r4.drop_first() =~= r5);
    assert(r5.drop_first() =~= r6);
    let e0 = Seq::<SpecItem>::empty();
    lemma_step_shift(e0, r0);
    let s1 = e0.push(SpecItem::Token(ta));
    lemma_step_literal(s1, r1, a);
    let s2 = seq![ia];
    assert(s1.drop_last().push(ia) =~= s2);
    lemma_step_shift(s2, r1);
    let s3 = seq![ia, il];
    assert(s2.push(il) =~= s3);
    lemma_step_shift(s3, r2);
    let s4 = seq![ia, il, SpecItem::Token(tb)];
    assert(s3.push(SpecItem::Token(tb)) =~= s4);
    lemma_step_literal(s4, r3, b);
    let s5 = seq![ia, il, ib];
    assert(s4.drop_last().push(ib) =~= s5);
    lemma_step_shift(s5, r3);
    let s6 = seq![ia, il, ib, io];
    assert(s5.push(io) =~= s6);
    lemma_step_shift(s6, r4);
    let s7 = seq![ia, il, ib, io, SpecItem::Token(tc)];
    assert(s6.push(SpecItem::Token(tc)) =~= s7);
    lemma_step_literal(s7, r5, c);
    let s8 = seq![ia, il, ib, io, ic];
    assert(s7.drop_last().push(ic) =~= s8);
    lemma_step_binary(s8, r5);
    let inner = binary_expr(op, SpecExpr::Immediate(b), SpecExpr::Immediate(c));
    let ii = SpecItem::Expression(inner);
    let s9 = seq![ia, il, ii];
    assert(reduce_binary(s8) =~= s9);
    lemma_step_shift(s9, r5);
    let s10 = seq![ia, il, ii, ir];
    assert(s9.push(ir) =~= s10);
    lemma_step_paren(s10, r6);
    let s11 = seq![
        SpecItem::Expression(SpecExpr::Mul(Box::new(SpecExpr::Immediate(a)), Box::new(inner))),
    ];
    assert(below(s10, 3) =~= seq![ia]);
    assert(seq![ia].drop_last() =~= Seq::<SpecItem>::empty());
    assert(reduce_paren(s10) =~= s11);
}

} // verus!

use vstd::prelude::*;
use crate::parser::expression::SpecExpr;
use crate::parser::tokenizer::{SpecToken, spec_tokenize, spec_next_token, lemma_numeral_len_bound};
use crate::parser::{
    SpecItem,
    binary_expr,
    binary_ready,
    below,
    paren_ready,
    parse_run,
    parse_continues,
    parse_measure,
    count_tokens,
    lemma_count_tokens_push,
    lemma_reduce_binary_measure,
    lemma_reduce_paren_measure,
    reduce_binary,
    reduce_paren,
    spec_parse,
    top_literal,
    top_name,
};

verus! {

// The grammar of calculator expressions, read by recursive descent over the
// tokens `ts` from position `i`. Each function returns what it read and the
// position after it:
//
//   expr   := term (('+' | '-') term)*
//   term   := factor (('*' | '/') factor | group)*
//   factor := literal | group
//   group  := '(' expr ')'
//
// `+` and `-` group to the left, as do `*`, `/` and a group written right
// after a term (which multiplies it).

/// `*` or `/`.
pub open spec fn is_mul_op(t: SpecToken) -> bool {
    t == SpecToken::Multiply || t == SpecToken::Divide
}

/// `+` or `-`.
pub open spec fn is_add_op(t: SpecToken) -> bool {
    t == SpecToken::Add || t == SpecToken::Subtract
}

/// A group at position `i`: `(`, an expression, `)`.
pub open spec fn group_at(ts: Seq<SpecToken>, i: int) -> Option<(SpecExpr, int)>
    decreases ts.len() - i, 0int,
{
    if 0 <= i < ts.len() && ts[i] == SpecToken::LParen {
        match expr_at(ts, i + 1) {
            Some((e, j)) => if i + 1 < j < ts.len() && ts[j] == SpecToken::RParen {
                Some((e, j + 1))
            } else {
                None
            },
            None => None,
        }
    } else {
        None
    }
}

/// A factor at position `i`: a literal or a group.
pub open spec fn factor_at(ts: Seq<SpecToken>, i: int) -> Option<(SpecExpr, int)>
    decreases ts.len() - i, 1int,
{
    if 0 <= i < ts.len() {
        match ts[i] {
            SpecToken::DecLiteral(v) => Some((SpecExpr::Immediate(v), i + 1)),
            SpecToken::LParen => group_at(ts, i),
            _ => None,
        }
    } else {
        None
    }
}

/// The rest of a term whose first part read so far is `acc`, from position
/// `i`: more factors after `*` or `/`, and groups, each applied to what is
/// on its left.
pub open spec fn term_tail(ts: Seq<SpecToken>, acc: SpecExpr, i: int) -> Option<(SpecExpr, int)>
    decreases ts.len() - i, 2int,
{
    if 0 <= i < ts.len() && is_mul_op(ts[i]) {
        match factor_at(ts, i + 1) {
            Some((f, j)) => if i + 1 < j <= ts.len() {
                term_tail(ts, binary_expr(ts[i], acc, f), j)
            } else {
                None
            },
            None => None,
        }
    } else if 0 <= i < ts.len() && ts[i] == SpecToken::LParen {
        match group_at(ts, i) {
            Some((g, j)) => if i < j <= ts.len() {
                term_tail(ts, SpecExpr::Mul(Box::new(acc), Box::new(g)), j)
            } else {
                None
            },
            None => None,
        }
    } else if 0 <= i <= ts.len() {
        Some((acc, i))
    } else {
        None
    }
}

/// A term at position `i`.
pub open spec fn term_at(ts: Seq<SpecToken>, i: int) -> Option<(SpecExpr, int)>
    decreases ts.len() - i, 3int,
{
    if 0 <= i < ts.len() {
        match factor_at(ts, i) {
            Some((f, j)) => if i < j <= ts.len() {
                term_tail(ts, f, j)
            } else {
                None
            },
            None => None,
        }
    } else {
        None
    }
}

/// The rest of an expression whose first part read so far is `acc`, from
/// position `i`: more terms after `+` or `-`.
pub open spec fn expr_tail(ts: Seq<SpecToken>, acc: SpecExpr, i: int) -> Option<(SpecExpr, int)>
    decreases ts.len() - i, 2int,
{
    if 0 <= i < ts.len() && is_add_op(ts[i]) {
        match term_at(ts, i + 1) {
            Some((t, j)) => if i + 1 < j <= ts.len() {
                expr_tail(ts, binary_expr(ts[i], acc, t), j)
            } else {
                None
            },
            None => None,
        }
    } else if 0 <= i <= ts.len() {
        Some((acc, i))
    } else {
        None
    }
}

/// An expression at position `i`.
pub open spec fn expr_at(ts: Seq<SpecToken>, i: int) -> Option<(SpecExpr, int)>
    decreases ts.len() - i, 4int,
{
    if 0 <= i < ts.len() {
        match term_at(ts, i) {
            Some((t, j)) => if i < j <= ts.len() {
                expr_tail(ts, t, j)
            } else {
                None
            },
            None => None,
        }
    } else {
        None
    }
}

/// The expression that the whole of `ts` reads as, by the grammar.
pub open spec fn grammar_parse(ts: Seq<SpecToken>) -> Option<SpecExpr> {
    match expr_at(ts, 0) {
        Some((e, j)) => if j == ts.len() {
            Some(e)
        } else {
            None
        },
        None => None,
    }
}

/// A stack on which the parser shifts the next token: it is empty or ends in
/// `(` or an operator.
pub open spec fn shift_ctx(st: Seq<SpecItem>) -> bool {
    st.len() == 0 || (st.last() matches SpecItem::Token(t) && (t == SpecToken::LParen
        || is_mul_op(t) || is_add_op(t)))
}

/// A stack on which a term starts: empty, or ending in `(`, `+` or `-`.
pub open spec fn term_ctx(st: Seq<SpecItem>) -> bool {
    st.len() == 0 || (st.last() matches SpecItem::Token(t) && (t == SpecToken::LParen
        || is_add_op(t)))
}

/// A stack on which an expression starts: empty, or ending in `(`.
pub open spec fn expr_ctx(st: Seq<SpecItem>) -> bool {
    st.len() == 0 || st.last() == SpecItem::Token(SpecToken::LParen)
}

/// No reduction applies: the parser's next step is a shift.
pub open spec fn quiet(st: Seq<SpecItem>, rest: Seq<SpecToken>) -> bool {
    &&& top_literal(st) is None
    &&& top_name(st) is None
    &&& !binary_ready(st, rest)
    &&& !paren_ready(st)
}

proof fn lemma_skip(ts: Seq<SpecToken>, i: int)
    requires
        0 <= i < ts.len(),
    ensures
        ts.skip(i).len() > 0,
        ts.skip(i)[0] == ts[i],
        ts.skip(i).drop_first() == ts.skip(i + 1),
{
    assert(ts.skip(i).drop_first() =~= ts.skip(i + 1));
}

/// With no reduction to make, the parser shifts token `i`.
proof fn lemma_shift(st: Seq<SpecItem>, ts: Seq<SpecToken>, i: int)
    requires
        0 <= i < ts.len(),
        quiet(st, ts.skip(i)),
    ensures
        parse_run(st, ts.skip(i)) == parse_run(st.push(SpecItem::Token(ts[i])), ts.skip(i + 1)),
{
    lemma_skip(ts, i);
}

/// A group: the parser shifts `(`, reads the expression, and shifts `)`.
proof fn lemma_group(ts: Seq<SpecToken>, i: int, st: Seq<SpecItem>)
    requires
        quiet(st, ts.skip(i)),
        group_at(ts, i) is Some,
    ensures
        parse_run(st, ts.skip(i)) == parse_run(
            st.push(SpecItem::Token(SpecToken::LParen)).push(
                SpecItem::Expression(group_at(ts, i)->Some_0.0),
            ).push(SpecItem::Token(SpecToken::RParen)),
            ts.skip(group_at(ts, i)->Some_0.1),
        ),
        i < group_at(ts, i)->Some_0.1 <= ts.len(),
    decreases ts.len() - i, 0int,
{
    let (e, k) = expr_at(ts, i + 1)->Some_0;
    lemma_shift(st, ts, i);
    let st1 = st.push(SpecItem::Token(SpecToken::LParen));
    lemma_expr(ts, i + 1, st1);
    let st2 = st1.push(SpecItem::Expression(e));
    assert(quiet(st2, ts.skip(k)));
    lemma_shift(st2, ts, k);
}

/// A factor: read onto a stack that ends in `(` or an operator, it leaves its
/// expression on top.
proof fn lemma_factor(ts: Seq<SpecToken>, i: int, st: Seq<SpecItem>)
    requires
        shift_ctx(st),
        factor_at(ts, i) is Some,
    ensures
        parse_run(st, ts.skip(i)) == parse_run(
            st.push(SpecItem::Expression(factor_at(ts, i)->Some_0.0)),
            ts.skip(factor_at(ts, i)->Some_0.1),
        ),
        i < factor_at(ts, i)->Some_0.1 <= ts.len(),
    decreases ts.len() - i, 1int,
{
    assert(quiet(st, ts.skip(i)));
    match ts[i] {
        SpecToken::DecLiteral(v) => {
            lemma_shift(st, ts, i);
            let st1 = st.push(SpecItem::Token(ts[i]));
            assert(st1.drop_last() =~= st);
            if i + 1 < ts.len() {
                lemma_skip(ts, i + 1);
            }
        },
        _ => {
            lemma_group(ts, i, st);
            let (e, j) = group_at(ts, i)->Some_0;
            let st3 = st.push(SpecItem::Token(SpecToken::LParen)).push(
                SpecItem::Expression(e),
            ).push(SpecItem::Token(SpecToken::RParen));
            assert(below(st3, 3) =~= st);
            assert(reduce_paren(st3) == st.push(SpecItem::Expression(e)));
            if j < ts.len() {
                lemma_skip(ts, j);
            }
        },
    }
}

/// Where a term stops: at the end, or at a token that neither multiplies nor
/// divides nor opens a group.
pub open spec fn ends_term(ts: Seq<SpecToken>, j: int) -> bool {
    j == ts.len() || !(is_mul_op(ts[j]) || ts[j] == SpecToken::LParen)
}

/// Where an expression stops: where a term stops, and not at `+` or `-`.
pub open spec fn ends_expr(ts: Seq<SpecToken>, j: int) -> bool {
    ends_term(ts, j) && (j == ts.len() || !is_add_op(ts[j]))
}

/// The rest of a term: each factor or group is applied to what is on its
/// left as soon as it is read.
proof fn lemma_term_tail(ts: Seq<SpecToken>, i: int, st: Seq<SpecItem>, acc: SpecExpr)
    requires
        term_ctx(st),
        term_tail(ts, acc, i) is Some,
    ensures
        parse_run(st.push(SpecItem::Expression(acc)), ts.skip(i)) == parse_run(
            st.push(SpecItem::Expression(term_tail(ts, acc, i)->Some_0.0)),
            ts.skip(term_tail(ts, acc, i)->Some_0.1),
        ),
        i <= term_tail(ts, acc, i)->Some_0.1 <= ts.len(),
        ends_term(ts, term_tail(ts, acc, i)->Some_0.1),
    decreases ts.len() - i, 2int,
{
    let sa = st.push(SpecItem::Expression(acc));
    if 0 <= i < ts.len() && is_mul_op(ts[i]) {
        let (f, j) = factor_at(ts, i + 1)->Some_0;
        lemma_skip(ts, i);
        assert(quiet(sa, ts.skip(i)));
        lemma_shift(sa, ts, i);
        let sb = sa.push(SpecItem::Token(ts[i]));
        lemma_factor(ts, i + 1, sb);
        let sc = sb.push(SpecItem::Expression(f));
        if j < ts.len() {
            lemma_skip(ts, j);
        }
        assert(binary_ready(sc, ts.skip(j)));
        assert(below(sc, 3) =~= st);
        assert(reduce_binary(sc) == st.push(SpecItem::Expression(binary_expr(ts[i], acc, f))));
        lemma_term_tail(ts, j, st, binary_expr(ts[i], acc, f));
    } else if 0 <= i < ts.len() && ts[i] == SpecToken::LParen {
        lemma_skip(ts, i);
        assert(quiet(sa, ts.skip(i)));
        lemma_group(ts, i, sa);
        let (g, j) = group_at(ts, i)->Some_0;
        let sd = sa.push(SpecItem::Token(SpecToken::LParen)).push(SpecItem::Expression(g)).push(
            SpecItem::Token(SpecToken::RParen),
        );
        assert(below(sd, 3) =~= sa);
        assert(sa.drop_last() =~= st);
        let m = SpecExpr::Mul(Box::new(acc), Box::new(g));
        assert(reduce_paren(sd) == st.push(SpecItem::Expression(m)));
        if j < ts.len() {
            lemma_skip(ts, j);
        }
        lemma_term_tail(ts, j, st, m);
    }
}

/// A term: read onto a stack that ends in `(`, `+` or `-`, it leaves its
/// expression on top.
proof fn lemma_term(ts: Seq<SpecToken>, i: int, st: Seq<SpecItem>)
    requires
        term_ctx(st),
        term_at(ts, i) is Some,
    ensures
        parse_run(st, ts.skip(i)) == parse_run(
            st.push(SpecItem::Expression(term_at(ts, i)->Some_0.0)),
            ts.skip(term_at(ts, i)->Some_0.1),
        ),
        i < term_at(ts, i)->Some_0.1 <= ts.len(),
        ends_term(ts, term_at(ts, i)->Some_0.1),
    decreases ts.len() - i, 3int,
{
    let (f, j) = factor_at(ts, i)->Some_0;
    lemma_factor(ts, i, st);
    lemma_term_tail(ts, j, st, f);
}

/// The rest of an expression: each term is added or subtracted as soon as
/// the next token shows that the term is complete.
proof fn lemma_expr_tail(ts: Seq<SpecToken>, i: int, st: Seq<SpecItem>, acc: SpecExpr)
    requires
        expr_ctx(st),
        ends_term(ts, i),
        expr_tail(ts, acc, i) is Some,
    ensures
        parse_run(st.push(SpecItem::Expression(acc)), ts.skip(i)) == parse_run(
            st.push(SpecItem::Expression(expr_tail(ts, acc, i)->Some_0.0)),
            ts.skip(expr_tail(ts, acc, i)->Some_0.1),
        ),
        i <= expr_tail(ts, acc, i)->Some_0.1 <= ts.len(),
        ends_expr(ts, expr_tail(ts, acc, i)->Some_0.1),
    decreases ts.len() - i, 2int,
{
    let sa = st.push(SpecItem::Expression(acc));
    if 0 <= i < ts.len() && is_add_op(ts[i]) {
        let (t, j) = term_at(ts, i + 1)->Some_0;
        lemma_skip(ts, i);
        assert(quiet(sa, ts.skip(i)));
        lemma_shift(sa, ts, i);
        let sb = sa.push(SpecItem::Token(ts[i]));
        lemma_term(ts, i + 1, sb);
        let sc = sb.push(SpecItem::Expression(t));
        if j < ts.len() {
            lemma_skip(ts, j);
        }
        assert(binary_ready(sc, ts.skip(j)));
        assert(below(sc, 3) =~= st);
        assert(reduce_binary(sc) == st.push(SpecItem::Expression(binary_expr(ts[i], acc, t))));
        lemma_expr_tail(ts, j, st, binary_expr(ts[i], acc, t));
    }
}

/// An expression: read onto a stack that is empty or ends in `(`, it leaves
/// its expression on top.
proof fn lemma_expr(ts: Seq<SpecToken>, i: int, st: Seq<SpecItem>)
    requires
        expr_ctx(st),
        expr_at(ts, i) is Some,
    ensures
        parse_run(st, ts.skip(i)) == parse_run(
            st.push(SpecItem::Expression(expr_at(ts, i)->Some_0.0)),
            ts.skip(expr_at(ts, i)->Some_0.1),
        ),
        i < expr_at(ts, i)->Some_0.1 <= ts.len(),
        ends_expr(ts, expr_at(ts, i)->Some_0.1),
    decreases ts.len() - i, 4int,
{
    let (t, j) = term_at(ts, i)->Some_0;
    lemma_term(ts, i, st);
    lemma_expr_tail(ts, j, st, t);
}

/// Where the grammar reads the whole of `ts`, the parser builds the same
/// expression.
proof fn lemma_parse_follows_grammar(ts: Seq<SpecToken>)
    requires
        grammar_parse(ts) is Some,
    ensures
        parse_run(Seq::empty(), ts) == Ok::<SpecExpr, ()>(grammar_parse(ts)->Some_0),
{
    let (e, j) = expr_at(ts, 0)->Some_0;
    lemma_expr(ts, 0, Seq::empty());
    assert(ts.skip(0) =~= ts);
    assert(ts.skip(j) =~= Seq::<SpecToken>::empty());
    assert(Seq::<SpecItem>::empty().push(SpecItem::Expression(e)) =~= seq![SpecItem::Expression(e)]);
}

/// The tokens the tokenizer makes: literals, operators and parentheses.
pub open spec fn plain_token(t: SpecToken) -> bool {
    t is DecLiteral || is_mul_op(t) || is_add_op(t) || t == SpecToken::LParen || t
        == SpecToken::RParen
}

pub open spec fn plain_tokens(ts: Seq<SpecToken>) -> bool {
    forall|k: int| 0 <= k < ts.len() ==> plain_token(#[trigger] ts[k])
}

pub open spec fn plain_stack(st: Seq<SpecItem>) -> bool {
    forall|k: int| 0 <= k < st.len() ==> (#[trigger] st[k] matches SpecItem::Token(t)
        ==> plain_token(t))
}

/// An expression, or a literal that is about to become one.
pub open spec fn operand_item(x: SpecItem) -> bool {
    x is Expression || x matches SpecItem::Token(SpecToken::DecLiteral(_))
}

pub open spec fn operator_item(x: SpecItem) -> bool {
    x matches SpecItem::Token(t) && (is_mul_op(t) || is_add_op(t))
}

/// Two neighbours on the stack that no step of the parser can ever join:
/// two operands, an operator or `(` followed by an operator or `)`, or
/// anything after a `)`.
pub open spec fn stuck_pair(x: SpecItem, y: SpecItem) -> bool {
    ||| operand_item(x) && operand_item(y)
    ||| (operator_item(x) || x == SpecItem::Token(SpecToken::LParen)) && (operator_item(y) || y
        == SpecItem::Token(SpecToken::RParen))
    ||| x == SpecItem::Token(SpecToken::RParen)
}

/// A stack from which the parser can no longer succeed: it starts with an
/// operator or `)`, or holds a stuck pair.
pub open spec fn dead(st: Seq<SpecItem>) -> bool {
    ||| st.len() > 0 && (operator_item(st[0]) || st[0] == SpecItem::Token(SpecToken::RParen))
    ||| exists|k: int| 0 <= k < st.len() - 1 && #[trigger] stuck_pair(st[k], st[k + 1])
}

proof fn lemma_dead_step(st: Seq<SpecItem>, st2: Seq<SpecItem>, k: int, k2: int)
    requires
        0 <= k < st.len() - 1,
        stuck_pair(st[k], st[k + 1]),
        0 <= k2 < st2.len() - 1,
        operand_item(st[k]) == operand_item(st2[k2]),
        operator_item(st[k]) == operator_item(st2[k2]),
        st[k] is Token && !operand_item(st[k]) ==> st2[k2] == st[k],
        operand_item(st[k + 1]) == operand_item(st2[k2 + 1]),
        operator_item(st[k + 1]) == operator_item(st2[k2 + 1]),
        st[k + 1] is Token && !operand_item(st[k + 1]) ==> st2[k2 + 1] == st[k + 1],
    ensures
        dead(st2),
{
    assert(stuck_pair(st2[k2], st2[k2 + 1]));
}

/// From a dead stack the parser fails, whatever tokens follow.
proof fn lemma_dead(st: Seq<SpecItem>, rest: Seq<SpecToken>)
    requires
        dead(st),
        plain_stack(st),
        plain_tokens(rest),
    ensures
        parse_run(st, rest) is Err,
    decreases parse_measure(st, rest),
{
    let n = st.len();
    let bottom_bad = n > 0 && (operator_item(st[0]) || st[0] == SpecItem::Token(SpecToken::RParen));
    let k = if bottom_bad { 0 } else { choose|k: int| 0 <= k < st.len() - 1 && #[trigger] stuck_pair(st[k], st[k + 1]) };
    assert(parse_continues(st, rest));
    if top_literal(st) is Some {
        let v = top_literal(st)->Some_0;
        let st2 = st.drop_last().push(SpecItem::Expression(SpecExpr::Immediate(v)));
        lemma_count_tokens_push(st.drop_last(), SpecItem::Expression(SpecExpr::Immediate(v)));
        if bottom_bad {
            assert(st2[0] == st[0]);
        } else if k + 1 == n - 1 {
            lemma_dead_step(st, st2, k, k);
        } else {
            lemma_dead_step(st, st2, k, k);
        }
        assert(plain_stack(st2));
        lemma_dead(st2, rest);
    } else if top_name(st) is Some && !(rest.len() > 0 && rest[0] == SpecToken::LParen) {
        assert(st[n - 1] is Token);
        assert(false);
    } else if binary_ready(st, rest) {
        lemma_reduce_binary_measure(st);
        let st2 = reduce_binary(st);
        if bottom_bad {
            assert(st2[0] == st[0]);
        } else {
            assert(k <= n - 4);
            if k < n - 4 {
                lemma_dead_step(st, st2, k, k);
            } else {
                lemma_dead_step(st, st2, k, k);
            }
        }
        assert(plain_stack(st2));
        lemma_dead(st2, rest);
    } else if paren_ready(st) {
        lemma_reduce_paren_measure(st);
        let st2 = reduce_paren(st);
        let base = below(st, 3);
        if bottom_bad {
            assert(n > 3);
            if base.last() is Expression {
                assert(n > 4);
            }
            assert(st2[0] == st[0]);
        } else {
            assert(k <= n - 4);
            if base.last() is Expression {
                assert(k != n - 4);
                lemma_dead_step(st, st2, k, k);
            } else if k == n - 4 {
                assert(st[k] == SpecItem::Token(SpecToken::RParen));
                assert(st2[k] == st[k]);
                assert(stuck_pair(st2[k], st2[k + 1]));
            } else {
                lemma_dead_step(st, st2, k, k);
            }
        }
        assert(plain_stack(st2));
        lemma_dead(st2, rest);
    } else if rest.len() == 0 {
    } else {
        let st2 = st.push(SpecItem::Token(rest[0]));
        lemma_count_tokens_push(st, SpecItem::Token(rest[0]));
        if bottom_bad {
            assert(st2[0] == st[0]);
        } else {
            lemma_dead_step(st, st2, k, k);
        }
        assert(plain_tokens(rest.drop_first()));
        assert(plain_stack(st2));
        lemma_dead(st2, rest.drop_first());
    }
}

proof fn lemma_plain_skip(ts: Seq<SpecToken>, i: int)
    requires
        plain_tokens(ts),
        0 <= i <= ts.len(),
    ensures
        plain_tokens(ts.skip(i)),
{
    assert forall|k: int| 0 <= k < ts.skip(i).len() implies plain_token(#[trigger] ts.skip(i)[k]) by {
        assert(ts.skip(i)[k] == ts[i + k]);
    }
}

/// At the end of the tokens, with no reduction to make and not a single
/// expression on the stack, the parser fails.
proof fn lemma_end_fails(st: Seq<SpecItem>, ts: Seq<SpecToken>)
    requires
        quiet(st, ts.skip(ts.len() as int)),
        st.len() != 1 || st[0] is Token,
    ensures
        parse_run(st, ts.skip(ts.len() as int)) is Err,
{
    assert(ts.skip(ts.len() as int).len() == 0);
}

/// Shifting token `i` makes the stack dead: the parser fails.
proof fn lemma_shift_dies(st: Seq<SpecItem>, ts: Seq<SpecToken>, i: int)
    requires
        0 <= i < ts.len(),
        quiet(st, ts.skip(i)),
        plain_tokens(ts),
        plain_stack(st),
        dead(st.push(SpecItem::Token(ts[i]))),
    ensures
        parse_run(st, ts.skip(i)) is Err,
{
    lemma_shift(st, ts, i);
    lemma_plain_skip(ts, i + 1);
    lemma_dead(st.push(SpecItem::Token(ts[i])), ts.skip(i + 1));
}

/// Where the grammar finds no factor, the parser fails.
proof fn lemma_factor_fails(ts: Seq<SpecToken>, i: int, st: Seq<SpecItem>)
    requires
        shift_ctx(st),
        plain_stack(st),
        plain_tokens(ts),
        0 <= i <= ts.len(),
        factor_at(ts, i) is None,
    ensures
        parse_run(st, ts.skip(i)) is Err,
    decreases ts.len() - i, 1int,
{
    assert(quiet(st, ts.skip(i)));
    if i == ts.len() {
        lemma_end_fails(st, ts);
    } else if ts[i] == SpecToken::LParen {
        lemma_group_fails(ts, i, st);
    } else {
        let st2 = st.push(SpecItem::Token(ts[i]));
        assert(plain_token(ts[i]));
        assert(!(ts[i] is DecLiteral));
        if st.len() > 0 {
            let k = st.len() - 1;
            assert(st2[k] == st.last());
            assert(st2[k + 1] == SpecItem::Token(ts[i]));
            assert(stuck_pair(st2[k], st2[k + 1]));
        } else {
            assert(st2[0] == SpecItem::Token(ts[i]));
        }
        lemma_shift_dies(st, ts, i);
    }
}

/// Where the grammar finds no group after `(`, the parser fails.
proof fn lemma_group_fails(ts: Seq<SpecToken>, i: int, st: Seq<SpecItem>)
    requires
        0 <= i < ts.len(),
        ts[i] == SpecToken::LParen,
        quiet(st, ts.skip(i)),
        plain_stack(st),
        plain_tokens(ts),
        group_at(ts, i) is None,
    ensures
        parse_run(st, ts.skip(i)) is Err,
    decreases ts.len() - i, 0int,
{
    lemma_shift(st, ts, i);
    let st1 = st.push(SpecItem::Token(SpecToken::LParen));
    if expr_at(ts, i + 1) is None {
        lemma_expr_fails(ts, i + 1, st1);
    } else {
        let (e, k) = expr_at(ts, i + 1)->Some_0;
        lemma_expr(ts, i + 1, st1);
        let st2 = st1.push(SpecItem::Expression(e));
        assert(quiet(st2, ts.skip(k)));
        if k == ts.len() {
            lemma_end_fails(st2, ts);
        } else {
            assert(plain_token(ts[k]));
            assert(ts[k] is DecLiteral);
            let st3 = st2.push(SpecItem::Token(ts[k]));
            assert(stuck_pair(st3[st2.len() - 1], st3[st2.len() as int]));
            lemma_shift_dies(st2, ts, k);
        }
    }
}

/// Where the grammar finds no term, the parser fails.
proof fn lemma_term_fails(ts: Seq<SpecToken>, i: int, st: Seq<SpecItem>)
    requires
        term_ctx(st),
        plain_stack(st),
        plain_tokens(ts),
        0 <= i <= ts.len(),
        term_at(ts, i) is None,
    ensures
        parse_run(st, ts.skip(i)) is Err,
    decreases ts.len() - i, 3int,
{
    if i == ts.len() {
        assert(quiet(st, ts.skip(i)));
        lemma_end_fails(st, ts);
    } else if factor_at(ts, i) is None {
        lemma_factor_fails(ts, i, st);
    } else {
        let (f, j) = factor_at(ts, i)->Some_0;
        lemma_factor(ts, i, st);
        lemma_term_tail_fails(ts, j, st, f);
    }
}

/// Where the grammar cannot finish a term, the parser fails.
proof fn lemma_term_tail_fails(ts: Seq<SpecToken>, i: int, st: Seq<SpecItem>, acc: SpecExpr)
    requires
        term_ctx(st),
        plain_stack(st),
        plain_tokens(ts),
        0 <= i <= ts.len(),
        term_tail(ts, acc, i) is None,
    ensures
        parse_run(st.push(SpecItem::Expression(acc)), ts.skip(i)) is Err,
    decreases ts.len() - i, 2int,
{
    let sa = st.push(SpecItem::Expression(acc));
    assert(plain_stack(sa));
    if is_mul_op(ts[i]) {
        lemma_skip(ts, i);
        assert(quiet(sa, ts.skip(i)));
        lemma_shift(sa, ts, i);
        let sb = sa.push(SpecItem::Token(ts[i]));
        assert(plain_stack(sb));
        if factor_at(ts, i + 1) is None {
            lemma_factor_fails(ts, i + 1, sb);
        } else {
            let (f, j) = factor_at(ts, i + 1)->Some_0;
            lemma_factor(ts, i + 1, sb);
            let sc = sb.push(SpecItem::Expression(f));
            if j < ts.len() {
                lemma_skip(ts, j);
            }
            assert(binary_ready(sc, ts.skip(j)));
            assert(below(sc, 3) =~= st);
            assert(reduce_binary(sc) == st.push(SpecItem::Expression(binary_expr(ts[i], acc, f))));
            lemma_term_tail_fails(ts, j, st, binary_expr(ts[i], acc, f));
        }
    } else {
        assert(ts[i] == SpecToken::LParen);
        lemma_skip(ts, i);
        assert(quiet(sa, ts.skip(i)));
        if group_at(ts, i) is None {
            lemma_group_fails(ts, i, sa);
        } else {
            lemma_group(ts, i, sa);
            let (g, j) = group_at(ts, i)->Some_0;
            let sd = sa.push(SpecItem::Token(SpecToken::LParen)).push(SpecItem::Expression(g)).push(
                SpecItem::Token(SpecToken::RParen),
            );
            assert(below(sd, 3) =~= sa);
            assert(sa.drop_last() =~= st);
            let m = SpecExpr::Mul(Box::new(acc), Box::new(g));
            assert(reduce_paren(sd) == st.push(SpecItem::Expression(m)));
            if j < ts.len() {
                lemma_skip(ts, j);
            }
            lemma_term_tail_fails(ts, j, st, m);
        }
    }
}

/// Where the grammar cannot finish an expression, the parser fails.
proof fn lemma_expr_tail_fails(ts: Seq<SpecToken>, i: int, st: Seq<SpecItem>, acc: SpecExpr)
    requires
        expr_ctx(st),
        plain_stack(st),
        plain_tokens(ts),
        0 <= i <= ts.len(),
        expr_tail(ts, acc, i) is None,
    ensures
        parse_run(st.push(SpecItem::Expression(acc)), ts.skip(i)) is Err,
    decreases ts.len() - i, 2int,
{
    let sa = st.push(SpecItem::Expression(acc));
    lemma_skip(ts, i);
    assert(quiet(sa, ts.skip(i)));
    lemma_shift(sa, ts, i);
    let sb = sa.push(SpecItem::Token(ts[i]));
    assert(plain_stack(sb));
    if term_at(ts, i + 1) is None {
        lemma_term_fails(ts, i + 1, sb);
    } else {
        let (t, j) = term_at(ts, i + 1)->Some_0;
        lemma_term(ts, i + 1, sb);
        let sc = sb.push(SpecItem::Expression(t));
        if j < ts.len() {
            lemma_skip(ts, j);
        }
        assert(binary_ready(sc, ts.skip(j)));
        assert(below(sc, 3) =~= st);
        assert(reduce_binary(sc) == st.push(SpecItem::Expression(binary_expr(ts[i], acc, t))));
        lemma_expr_tail_fails(ts, j, st, binary_expr(ts[i], acc, t));
    }
}

/// Where the grammar finds no expression, the parser fails.
proof fn lemma_expr_fails(ts: Seq<SpecToken>, i: int, st: Seq<SpecItem>)
    requires
        expr_ctx(st),
        plain_stack(st),
        plain_tokens(ts),
        0 <= i <= ts.len(),
        expr_at(ts, i) is None,
    ensures
        parse_run(st, ts.skip(i)) is Err,
    decreases ts.len() - i, 4int,
{
    if i == ts.len() {
        assert(quiet(st, ts.skip(i)));
        lemma_end_fails(st, ts);
    } else if term_at(ts, i) is None {
        lemma_term_fails(ts, i, st);
    } else {
        let (t, j) = term_at(ts, i)->Some_0;
        lemma_term(ts, i, st);
        lemma_expr_tail_fails(ts, j, st, t);
    }
}

/// The parser is the grammar: on any sequence of literals, operators and
/// parentheses it builds the expression that the grammar reads the whole
/// sequence as, and fails exactly where the grammar does not read it. So
/// `+` and `-` bind less tightly than `*`, `/` and a group written after a
/// term, and operators of one level group to the left.
pub proof fn law_parse_matches_grammar(ts: Seq<SpecToken>)
    requires
        plain_tokens(ts),
    ensures
        grammar_parse(ts) matches Some(e) ==> parse_run(Seq::empty(), ts) == Ok::<SpecExpr, ()>(e),
        grammar_parse(ts) is None ==> parse_run(Seq::empty(), ts) is Err,
{
    let empty = Seq::<SpecItem>::empty();
    assert(ts.skip(0) =~= ts);
    assert(plain_stack(empty));
    if grammar_parse(ts) is Some {
        lemma_parse_follows_grammar(ts);
        assert(parse_run(empty, ts) == Ok::<SpecExpr, ()>(grammar_parse(ts)->Some_0));
    } else if expr_at(ts, 0) is None {
        lemma_expr_fails(ts, 0, empty);
        assert(parse_run(empty, ts) is Err);
    } else {
        let (e, j) = expr_at(ts, 0)->Some_0;
        lemma_expr(ts, 0, empty);
        let s1 = empty.push(SpecItem::Expression(e));
        assert(plain_stack(s1));
        assert(j < ts.len());
        assert(plain_token(ts[j]));
        assert(quiet(s1, ts.skip(j)));
        let s2 = s1.push(SpecItem::Token(ts[j]));
        if ts[j] is DecLiteral {
            assert(stuck_pair(s2[0int], s2[0int + 1]));
            lemma_shift_dies(s1, ts, j);
        } else {
            assert(ts[j] == SpecToken::RParen);
            lemma_shift(s1, ts, j);
            assert(plain_stack(s2));
            assert(quiet(s2, ts.skip(j + 1)));
            if j + 1 == ts.len() {
                lemma_end_fails(s2, ts);
            } else {
                let s3 = s2.push(SpecItem::Token(ts[j + 1]));
                assert(stuck_pair(s3[1int], s3[1int + 1]));
                lemma_shift_dies(s2, ts, j + 1);
            }
        }
        assert(parse_run(empty, ts) is Err);
    }
}

proof fn lemma_tokenize_plain(s: Seq<char>)
    ensures
        spec_tokenize(s) matches Ok(ts) ==> plain_tokens(ts),
    decreases s.len(),
{
    if s.len() > 0 {
        if let Some((t, n)) = spec_next_token(s) {
            lemma_numeral_len_bound(s, false);
            lemma_tokenize_plain(s.skip(n as int));
            if let Ok(rest) = spec_tokenize(s.skip(n as int)) {
                assert(plain_token(t));
                let all = seq![t] + rest;
                assert forall|k: int| 0 <= k < all.len() implies plain_token(#[trigger] all[k]) by {
                    if k > 0 {
                        assert(all[k] == rest[k - 1]);
                    }
                }
            }
        }
    }
}

/// What `parse` gives for a text that tokenizes: the expression that the
/// grammar reads the tokens as, or a failure when it does not read them
/// (an empty text gives `0`).
pub proof fn law_parse_text_matches_grammar(s: Seq<char>)
    requires
        spec_tokenize(s) is Ok,
    ensures
        spec_tokenize(s)->Ok_0.len() > 0 ==> (grammar_parse(spec_tokenize(s)->Ok_0) matches Some(
            e,
        ) ==> spec_parse(s) == Ok::<SpecExpr, ()>(e)),
        spec_tokenize(s)->Ok_0.len() > 0 ==> (grammar_parse(spec_tokenize(s)->Ok_0) is None
            ==> spec_parse(s) is Err),
{
    lemma_tokenize_plain(s);
    law_parse_matches_grammar(spec_tokenize(s)->Ok_0);
}

} // verus!

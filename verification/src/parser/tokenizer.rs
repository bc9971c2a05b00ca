use vstd::prelude::*;
use vstd::string::StrSliceExecFns;
use vstd::std_specs::iter::IteratorSpec;
use crate::parser::ExpressionError;

verus! {

/// A lexical token of a calculator expression.
///
/// A decimal literal keeps the text it was read from; turning it into a
/// number is left to whoever evaluates the expression.
#[derive(Debug, Clone, Copy, PartialEq)]
pub enum Token<'s> {
    DecLiteral(&'s str),
    Multiply,
    Divide,
    Add,
    Subtract,
    Identifier(&'s str),
    Equals,
    LParen,
    RParen,
    Whitespace,
}

/// The mathematical model of a token: the texts become character sequences.
pub enum SpecToken {
    DecLiteral(Seq<char>),
    Multiply,
    Divide,
    Add,
    Subtract,
    Identifier(Seq<char>),
    Equals,
    LParen,
    RParen,
    Whitespace,
}

impl<'s> View for Token<'s> {
    type V = SpecToken;

    open spec fn view(&self) -> SpecToken {
        match *self {
            Token::DecLiteral(t) => SpecToken::DecLiteral(t@),
            Token::Multiply => SpecToken::Multiply,
            Token::Divide => SpecToken::Divide,
            Token::Add => SpecToken::Add,
            Token::Subtract => SpecToken::Subtract,
            Token::Identifier(t) => SpecToken::Identifier(t@),
            Token::Equals => SpecToken::Equals,
            Token::LParen => SpecToken::LParen,
            Token::RParen => SpecToken::RParen,
            Token::Whitespace => SpecToken::Whitespace,
        }
    }
}

/// The models of a sequence of tokens.
pub open spec fn tokens_view<'s>(ts: Seq<Token<'s>>) -> Seq<SpecToken> {
    ts.map_values(|t: Token<'s>| t@)
}

pub open spec fn is_digit(c: char) -> bool {
    '0' <= c && c <= '9'
}

/// Length of the longest prefix of `s` made of decimal digits with at most
/// one decimal point, where `seen_point` says whether a point was already read.
pub open spec fn numeral_len_from(s: Seq<char>, seen_point: bool) -> nat
    decreases s.len(),
{
    if s.len() == 0 {
        0
    } else if is_digit(s[0]) {
        1 + numeral_len_from(s.drop_first(), seen_point)
    } else if s[0] == '.' && !seen_point {
        1 + numeral_len_from(s.drop_first(), true)
    } else {
        0
    }
}

/// Length of the decimal literal at the start of `s` (0 if there is none).
pub open spec fn numeral_len(s: Seq<char>) -> nat {
    numeral_len_from(s, false)
}

/// What `token_decimal` returns: the end of the literal at the start of `s`,
/// `None` when `s` starts with a character that cannot begin one.
pub open spec fn spec_token_decimal(s: Seq<char>) -> Option<nat> {
    if s.len() > 0 && numeral_len(s) == 0 {
        None
    } else {
        Some(numeral_len(s))
    }
}

/// The one-character token that `c` stands for, if any.
pub open spec fn single_char_token(c: char) -> Option<SpecToken> {
    if c == '*' {
        Some(SpecToken::Multiply)
    } else if c == '/' {
        Some(SpecToken::Divide)
    } else if c == '+' {
        Some(SpecToken::Add)
    } else if c == '-' {
        Some(SpecToken::Subtract)
    } else if c == '(' {
        Some(SpecToken::LParen)
    } else if c == ')' {
        Some(SpecToken::RParen)
    } else {
        None
    }
}

/// The token at the start of `s` and how many characters it takes.
pub open spec fn spec_next_token(s: Seq<char>) -> Option<(SpecToken, nat)> {
    match spec_token_decimal(s) {
        Some(n) => Some((SpecToken::DecLiteral(s.take(n as int)), n)),
        None => match single_char_token(s[0]) {
            Some(t) => Some((t, 1)),
            None => None,
        },
    }
}

pub proof fn lemma_numeral_len_bound(s: Seq<char>, seen_point: bool)
    ensures
        numeral_len_from(s, seen_point) <= s.len(),
    decreases s.len(),
{
    if s.len() > 0 {
        lemma_numeral_len_bound(s.drop_first(), true);
        lemma_numeral_len_bound(s.drop_first(), seen_point);
    }
}

/// The tokens of `s`, whitespace left out, or `Err` if some part of `s` is
/// not a token.
pub open spec fn spec_tokenize(s: Seq<char>) -> Result<Seq<SpecToken>, ()>
    decreases s.len(),
{
    if s.len() == 0 {
        Ok(Seq::empty())
    } else {
        match spec_next_token(s) {
            None => Err(()),
            Some((t, n)) => {
                proof {
                    lemma_numeral_len_bound(s, false);
                }
                match spec_tokenize(s.skip(n as int)) {
                    Err(()) => Err(()),
                    Ok(rest) => if t == SpecToken::Whitespace {
                        Ok(rest)
                    } else {
                        Ok(seq![t] + rest)
                    },
                }
            },
        }
    }
}


/// The end of the decimal literal at the start of `input`: the literal is the
/// longest prefix made of digits with at most one decimal point. `None` when
/// `input` starts with something else.
pub fn token_decimal(input: &str) -> (r: Option<usize>)
    ensures
        match r {
            Some(n) => spec_token_decimal(input@) == Some(n as nat),
            None => spec_token_decimal(input@) is None,
        },
{
    broadcast use vstd::string::group_string_axioms;
    let _ = input.unicode_len();
    let mut counter: usize = 0;
    let mut has_seen_decimal = false;
    let mut chars = input.chars();
    loop
        invariant
            counter <= input@.len(),
            input@.len() <= usize::MAX,
            chars.remaining() == input@.skip(counter as int),
            numeral_len(input@) == counter + numeral_len_from(
                input@.skip(counter as int),
                has_seen_decimal,
            ),
            counter == 0 ==> !has_seen_decimal,
        decreases input@.len() - counter,
    {
        let ghost rest = input@.skip(counter as int);
        match chars.next() {
            None => {
                return Some(counter);
            },
            Some(c) => {
                assert(rest.drop_first() =~= input@.skip(counter + 1));
                if '0' <= c && c <= '9' {
                } else if c == '.' {
                    if has_seen_decimal {
                        return Some(counter);
                    }
                    has_seen_decimal = true;
                } else {
                    return if counter == 0 {
                        None
                    } else {
                        Some(counter)
                    };
                }
                counter += 1;
            },
        }
    }
}


pub open spec fn has_digit(t: Seq<char>) -> bool {
    exists|i: int| 0 <= i < t.len() && is_digit(t[i])
}

/// Whether the literal at the start of `s`, if there is one, holds a digit
/// (a lone point, or an empty literal, is no number).
pub open spec fn next_literal_is_number(s: Seq<char>) -> bool {
    match spec_next_token(s) {
        Some((SpecToken::DecLiteral(t), _)) => has_digit(t),
        _ => true,
    }
}

/// Whether every literal that tokenizing `s` meets, up to the first part
/// that is not a token, holds a digit: only then can each be read as a number.
pub open spec fn literals_are_numbers(s: Seq<char>) -> bool
    decreases s.len(),
{
    if s.len() == 0 {
        true
    } else {
        next_literal_is_number(s) && match spec_next_token(s) {
            None => true,
            Some((_, n)) => {
                proof {
                    lemma_numeral_len_bound(s, false);
                }
                literals_are_numbers(s.skip(n as int))
            },
        }
    }
}

/// `prefix` put in front of the tokens of a successful tokenization.
pub open spec fn prepend_tokens(prefix: Seq<SpecToken>, r: Result<Seq<SpecToken>, ()>) -> Result<
    Seq<SpecToken>,
    (),
> {
    match r {
        Ok(ts) => Ok(prefix + ts),
        Err(()) => Err(()),
    }
}

fn starts_with_char(input: &str, c: char) -> (r: bool)
    ensures
        r == (input@.len() > 0 && input@[0] == c),
{
    !input.is_empty() && input.get_char(0) == c
}

/// `Some(1)` when `input` starts with `*`.
fn token_multiply(input: &str) -> (r: Option<usize>)
    ensures
        r == (if input@.len() > 0 && input@[0] == '*' { Some(1usize) } else { None }),
{
    if starts_with_char(input, '*') {
        Some(1)
    } else {
        None
    }
}

/// `Some(1)` when `input` starts with `/`.
fn token_divide(input: &str) -> (r: Option<usize>)
    ensures
        r == (if input@.len() > 0 && input@[0] == '/' { Some(1usize) } else { None }),
{
    if starts_with_char(input, '/') {
        Some(1)
    } else {
        None
    }
}

/// `Some(1)` when `input` starts with `+`.
fn token_plus(input: &str) -> (r: Option<usize>)
    ensures
        r == (if input@.len() > 0 && input@[0] == '+' { Some(1usize) } else { None }),
{
    if starts_with_char(input, '+') {
        Some(1)
    } else {
        None
    }
}

/// `Some(1)` when `input` starts with `-`.
fn token_minus(input: &str) -> (r: Option<usize>)
    ensures
        r == (if input@.len() > 0 && input@[0] == '-' { Some(1usize) } else { None }),
{
    if starts_with_char(input, '-') {
        Some(1)
    } else {
        None
    }
}

/// `Some(1)` when `input` starts with `(`.
fn token_lparen(input: &str) -> (r: Option<usize>)
    ensures
        r == (if input@.len() > 0 && input@[0] == '(' { Some(1usize) } else { None }),
{
    if starts_with_char(input, '(') {
        Some(1)
    } else {
        None
    }
}

/// `Some(1)` when `input` starts with `)`.
fn token_rparen(input: &str) -> (r: Option<usize>)
    ensures
        r == (if input@.len() > 0 && input@[0] == ')' { Some(1usize) } else { None }),
{
    if starts_with_char(input, ')') {
        Some(1)
    } else {
        None
    }
}

/// The token at the start of `input` and the rest of `input` after it.
fn split_next_token<'s>(input: &'s str) -> (r: Option<(Token<'s>, &'s str)>)
    ensures
        match r {
            Some((t, rest)) => spec_next_token(input@) matches Some((st, n)) && st == t@
                && rest@ == input@.skip(n as int),
            None => spec_next_token(input@) is None,
        },
{
    let len = input.unicode_len();
    if let Some(val) = token_decimal(input) {
        proof {
            lemma_numeral_len_bound(input@, false);
        }
        let token_str = input.substring_char(0, val);
        let remainder = input.substring_char(val, len);
        Some((Token::DecLiteral(token_str), remainder))
    } else {
        let remainder = input.substring_char(1, len);
        if let Some(_) = token_multiply(input) {
            Some((Token::Multiply, remainder))
        } else if let Some(_) = token_divide(input) {
            Some((Token::Divide, remainder))
        } else if let Some(_) = token_plus(input) {
            Some((Token::Add, remainder))
        } else if let Some(_) = token_minus(input) {
            Some((Token::Subtract, remainder))
        } else if let Some(_) = token_lparen(input) {
            Some((Token::LParen, remainder))
        } else if let Some(_) = token_rparen(input) {
            Some((Token::RParen, remainder))
        } else {
            None
        }
    }
}

/// Reads the token at the start of `input`: a decimal literal, an operator or
/// a parenthesis. Returns it with the rest of `input`, or `InvalidSyntax` when
/// `input` starts with anything else.
pub fn get_next_token<'s>(input: &'s str) -> (r: Result<(Token<'s>, &'s str), ExpressionError>)
    requires
        input@.len() > 0,
        next_literal_is_number(input@),
    ensures
        match r {
            Ok((t, rest)) => spec_next_token(input@) matches Some((st, n)) && st == t@
                && rest@ == input@.skip(n as int),
            Err(e) => spec_next_token(input@) is None && e == ExpressionError::InvalidSyntax(0),
        },
{
    match split_next_token(input) {
        Some(found) => Ok(found),
        None => Err(ExpressionError::InvalidSyntax(0)),
    }
}

/// Splits `input` into its tokens, whitespace left out.
pub fn tokenize<'s>(input: &'s str) -> (r: Result<Vec<Token<'s>>, ExpressionError>)
    requires
        literals_are_numbers(input@),
    ensures
        match r {
            Ok(v) => spec_tokenize(input@) == Ok::<Seq<SpecToken>, ()>(tokens_view(v@)),
            Err(e) => spec_tokenize(input@) is Err && e == ExpressionError::InvalidSyntax(0),
        },
{
    let mut ret: Vec<Token<'s>> = Vec::new();
    let mut rest = input;
    while !rest.is_empty()
        invariant
            literals_are_numbers(rest@),
            spec_tokenize(input@) == prepend_tokens(tokens_view(ret@), spec_tokenize(rest@)),
        decreases rest@.len(),
    {
        proof {
            lemma_numeral_len_bound(rest@, false);
        }
        let values = get_next_token(rest)?;
        let ghost old_ret = ret@;
        rest = values.1;
        match values.0 {
            Token::Whitespace => {},
            t => {
                ret.push(t);
                assert(tokens_view(ret@) =~= tokens_view(old_ret).push(t@));
            },
        }
        proof {
            let st = values.0@;
            match spec_tokenize(rest@) {
                Ok(r2) => {
                    assert(tokens_view(old_ret) + (seq![st] + r2) =~= tokens_view(
                        old_ret,
                    ).push(st) + r2);
                },
                Err(()) => {},
            }
        }
    }
    assert(tokens_view(ret@) + Seq::<SpecToken>::empty() =~= tokens_view(ret@));
    Ok(ret)
}


fn str_has_digit(t: &str) -> (r: bool)
    ensures
        r == has_digit(t@),
{
    broadcast use vstd::string::group_string_axioms;
    let mut chars = t.chars();
    let ghost mut i: int = 0;
    loop
        invariant
            0 <= i <= t@.len(),
            chars.remaining() == t@.skip(i),
            forall|j: int| 0 <= j < i ==> !is_digit(t@[j]),
        decreases t@.len() - i,
    {
        let ghost rest = t@.skip(i);
        match chars.next() {
            None => {
                return false;
            },
            Some(c) => {
                assert(rest[0] == t@[i]);
                assert(rest.drop_first() =~= t@.skip(i + 1));
                if '0' <= c && c <= '9' {
                    return true;
                }
                proof {
                    i = i + 1;
                }
            },
        }
    }
}

/// Whether `input` can be tokenized without meeting a literal that is no
/// number (see `literals_are_numbers`): the condition under which `tokenize`
/// and `parse` may be called.
pub fn check_literals(input: &str) -> (r: bool)
    ensures
        r == literals_are_numbers(input@),
{
    let mut rest = input;
    while !rest.is_empty()
        invariant
            literals_are_numbers(input@) == literals_are_numbers(rest@),
        decreases rest@.len(),
    {
        proof {
            lemma_numeral_len_bound(rest@, false);
        }
        match split_next_token(rest) {
            None => {
                return true;
            },
            Some((t, next)) => {
                if let Token::DecLiteral(text) = t {
                    if !str_has_digit(text) {
                        return false;
                    }
                }
                rest = next;
            },
        }
    }
    true
}

/// The text a token is read from.
pub open spec fn token_text(t: SpecToken) -> Seq<char> {
    match t {
        SpecToken::DecLiteral(text) => text,
        SpecToken::Multiply => seq!['*'],
        SpecToken::Divide => seq!['/'],
        SpecToken::Add => seq!['+'],
        SpecToken::Subtract => seq!['-'],
        SpecToken::Identifier(text) => text,
        SpecToken::Equals => seq!['='],
        SpecToken::LParen => seq!['('],
        SpecToken::RParen => seq![')'],
        SpecToken::Whitespace => seq![' '],
    }
}

/// The texts of a sequence of tokens, joined.
pub open spec fn tokens_text(ts: Seq<SpecToken>) -> Seq<char>
    decreases ts.len(),
{
    if ts.len() == 0 {
        Seq::empty()
    } else {
        token_text(ts[0]) + tokens_text(ts.drop_first())
    }
}

/// The characters that some token is made of.
pub open spec fn is_token_char(c: char) -> bool {
    is_digit(c) || c == '.' || single_char_token(c) is Some
}

proof fn lemma_numeral_chars(s: Seq<char>, seen_point: bool, i: int)
    requires
        0 <= i < numeral_len_from(s, seen_point),
    ensures
        is_digit(s[i]) || s[i] == '.',
    decreases s.len(),
{
    lemma_numeral_len_bound(s, seen_point);
    if i > 0 {
        assert(s[i] == s.drop_first()[i - 1]);
        if is_digit(s[0]) {
            lemma_numeral_chars(s.drop_first(), seen_point, i - 1);
        } else {
            lemma_numeral_chars(s.drop_first(), true, i - 1);
        }
    }
}

proof fn lemma_next_token_text(s: Seq<char>)
    requires
        s.len() > 0,
        spec_next_token(s) is Some,
    ensures
        spec_next_token(s) matches Some((t, n)) && 0 < n <= s.len() && token_text(t) == s.take(
            n as int,
        ) && t != SpecToken::Whitespace,
{
    lemma_numeral_len_bound(s, false);
}

/// Tokenizing loses and adds nothing: the texts of the tokens, joined, give
/// back the input.
pub proof fn law_tokenize_lossless(s: Seq<char>)
    requires
        spec_tokenize(s) is Ok,
    ensures
        tokens_text(spec_tokenize(s)->Ok_0) == s,
    decreases s.len(),
{
    if s.len() > 0 {
        lemma_next_token_text(s);
        let (t, n) = spec_next_token(s)->0;
        law_tokenize_lossless(s.skip(n as int));
        let rest = spec_tokenize(s.skip(n as int))->Ok_0;
        let ts = seq![t] + rest;
        assert(ts.drop_first() =~= rest);
        assert(s =~= s.take(n as int) + s.skip(n as int));
    } else {
        assert(s =~= Seq::<char>::empty());
    }
}

/// Tokenizing succeeds exactly on the inputs made only of digits, points,
/// the four operators and parentheses.
pub proof fn law_tokenize_accepts(s: Seq<char>)
    ensures
        spec_tokenize(s) is Ok <==> forall|i: int| 0 <= i < s.len() ==> is_token_char(#[trigger] s[i]),
    decreases s.len(),
{
    if s.len() > 0 {
        lemma_numeral_len_bound(s, false);
        if spec_next_token(s) is None {
            assert(!is_token_char(s[0]));
        } else {
            let (t, n) = spec_next_token(s)->0;
            let rest = s.skip(n as int);
            law_tokenize_accepts(rest);
            lemma_next_token_text(s);
            if forall|i: int| 0 <= i < s.len() ==> is_token_char(#[trigger] s[i]) {
                assert forall|i: int| 0 <= i < rest.len() implies is_token_char(#[trigger] rest[i]) by {
                    assert(rest[i] == s[i + n]);
                }
            }
            if spec_tokenize(s) is Ok {
                assert forall|i: int| 0 <= i < s.len() implies is_token_char(#[trigger] s[i]) by {
                    if i < n {
                        if spec_token_decimal(s) is Some {
                            lemma_numeral_chars(s, false, i);
                        }
                    } else {
                        assert(s[i] == rest[i - n]);
                    }
                }
            }
        }
    }
}

proof fn lemma_numeral_shape(s: Seq<char>, seen_point: bool)
    ensures
        ({
            let n = numeral_len_from(s, seen_point) as int;
            &&& n <= s.len()
            &&& forall|k: int| 0 <= k < n ==> is_digit(#[trigger] s[k]) || s[k] == '.'
            &&& forall|k1: int, k2: int|
                0 <= k1 < k2 < n ==> !(#[trigger] s[k1] == '.' && #[trigger] s[k2] == '.')
            &&& seen_point ==> forall|k: int| 0 <= k < n ==> #[trigger] s[k] != '.'
            &&& n == s.len() || !(is_digit(s[n]) || (s[n] == '.' && !seen_point && forall|k: int|
                0 <= k < n ==> #[trigger] s[k] != '.'))
        }),
    decreases s.len(),
{
    if s.len() > 0 {
        let t = s.drop_first();
        lemma_numeral_shape(t, seen_point);
        lemma_numeral_shape(t, true);
        let n = numeral_len_from(s, seen_point) as int;
        if is_digit(s[0]) {
            let m = numeral_len_from(t, seen_point) as int;
            assert(n == m + 1);
            assert forall|k: int| 0 <= k < n implies is_digit(#[trigger] s[k]) || s[k] == '.' by {
                if k > 0 {
                    assert(s[k] == t[k - 1]);
                }
            }
            assert forall|k1: int, k2: int|
                0 <= k1 < k2 < n implies !(#[trigger] s[k1] == '.' && #[trigger] s[k2] == '.') by {
                if k1 > 0 {
                    assert(s[k1] == t[k1 - 1] && s[k2] == t[k2 - 1]);
                }
            }
            if seen_point {
                assert forall|k: int| 0 <= k < n implies #[trigger] s[k] != '.' by {
                    if k > 0 {
                        assert(s[k] == t[k - 1]);
                    }
                }
            }
            if n < s.len() {
                assert(s[n] == t[m]);
                if s[n] == '.' && !seen_point && forall|k: int| 0 <= k < n ==> #[trigger] s[k] != '.' {
                    assert forall|k: int| 0 <= k < m implies #[trigger] t[k] != '.' by {
                        assert(t[k] == s[k + 1]);
                    }
                }
            }
        } else if s[0] == '.' && !seen_point {
            let m = numeral_len_from(t, true) as int;
            assert(n == m + 1);
            assert forall|k: int| 0 <= k < n implies is_digit(#[trigger] s[k]) || s[k] == '.' by {
                if k > 0 {
                    assert(s[k] == t[k - 1]);
                }
            }
            assert forall|k1: int, k2: int|
                0 <= k1 < k2 < n implies !(#[trigger] s[k1] == '.' && #[trigger] s[k2] == '.') by {
                assert(s[k2] == t[k2 - 1]);
                if k1 > 0 {
                    assert(s[k1] == t[k1 - 1]);
                }
            }
            if n < s.len() {
                assert(s[n] == t[m]);
            }
        }
    }
}

/// A decimal literal is the longest prefix of digits with at most one
/// decimal point: what it takes is digits and at most one point, and the
/// character after it, if any, is neither a digit nor a point that could
/// still join it.
pub proof fn law_literal_is_longest(s: Seq<char>)
    ensures
        ({
            let n = numeral_len(s) as int;
            &&& n <= s.len()
            &&& forall|k: int| 0 <= k < n ==> is_digit(#[trigger] s[k]) || s[k] == '.'
            &&& forall|k1: int, k2: int|
                0 <= k1 < k2 < n ==> !(#[trigger] s[k1] == '.' && #[trigger] s[k2] == '.')
            &&& n == s.len() || !(is_digit(s[n]) || (s[n] == '.' && forall|k: int|
                0 <= k < n ==> #[trigger] s[k] != '.'))
        }),
{
    lemma_numeral_shape(s, false);
}

} // verus!

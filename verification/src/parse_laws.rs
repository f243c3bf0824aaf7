//! What holds of every tree that parsing gives.

use vstd::prelude::*;
use crate::expr::ExprView;
use crate::grammar::{
    binding_power, failure, is_binary_operator, lemma_expression_advances, lemma_infix_advances,
    lemma_prefix_advances, lemma_type_advances, parse, parse_expression, parse_group, parse_infix,
    parse_infixes, parse_prefix, parse_type, remaining, token_is, unary_power, ParseErrorKind,
    ParseFailure,
};
use crate::token::TokenView;
use crate::types::TypeView;

verus! {

/// `longer` is `tokens` with more tokens behind it, the first of which continues no
/// expression: it binds with power 0, as a statement separator does.
pub open spec fn continues_with_a_stop(tokens: Seq<TokenView>, longer: Seq<TokenView>) -> bool {
    &&& tokens.len() < longer.len()
    &&& forall|i: int| 0 <= i < tokens.len() ==> #[trigger] longer[i] == tokens[i]
    &&& binding_power(longer[tokens.len() as int]) == 0
}

/// An expression that is read from `tokens` is read from `longer` as well, with the
/// same tree and the same end.
pub proof fn lemma_expression_extends(
    tokens: Seq<TokenView>,
    longer: Seq<TokenView>,
    pos: int,
    rbp: u8,
)
    requires
        continues_with_a_stop(tokens, longer),
    ensures
        parse_expression(tokens, pos, rbp) is Ok ==> parse_expression(longer, pos, rbp)
            == parse_expression(tokens, pos, rbp),
    decreases remaining(tokens, pos), 3int,
{
    if 0 <= pos < tokens.len() {
        lemma_prefix_extends(tokens, longer, pos);
        lemma_prefix_advances(tokens, pos);
        if let Ok((left, next)) = parse_prefix(tokens, pos) {
            lemma_infixes_extend(tokens, longer, next, left, rbp);
        }
    }
}

/// See [`lemma_expression_extends`].
pub proof fn lemma_prefix_extends(tokens: Seq<TokenView>, longer: Seq<TokenView>, pos: int)
    requires
        continues_with_a_stop(tokens, longer),
        0 <= pos < tokens.len(),
    ensures
        parse_prefix(tokens, pos) is Ok ==> parse_prefix(longer, pos) == parse_prefix(tokens, pos),
    decreases remaining(tokens, pos), 2int,
{
    assert(longer[pos] == tokens[pos]);
    match tokens[pos] {
        TokenView::Minus | TokenView::Star => {
            lemma_expression_extends(tokens, longer, pos + 1, unary_power());
        },
        TokenView::LParen => {
            lemma_group_extends(tokens, longer, pos + 1, TokenView::RParen);
        },
        TokenView::LBracket => {
            lemma_group_extends(tokens, longer, pos + 1, TokenView::RBracket);
        },
        _ => {},
    }
}

/// See [`lemma_expression_extends`].
pub proof fn lemma_group_extends(
    tokens: Seq<TokenView>,
    longer: Seq<TokenView>,
    pos: int,
    closer: TokenView,
)
    requires
        continues_with_a_stop(tokens, longer),
        0 <= pos,
    ensures
        parse_group(tokens, pos, closer) is Ok ==> parse_group(longer, pos, closer) == parse_group(
            tokens,
            pos,
            closer,
        ),
    decreases remaining(tokens, pos), 4int,
{
    if parse_group(tokens, pos, closer) is Ok {
        if token_is(tokens, pos, closer) {
            assert(longer[pos] == tokens[pos]);
        } else {
            lemma_expression_extends(tokens, longer, pos, 0);
            lemma_expression_advances(tokens, pos, 0);
            if let Ok((_, next)) = parse_expression(tokens, pos, 0) {
                assert(longer[next] == tokens[next]);
                assert(longer[pos] == tokens[pos]);
            }
        }
    }
}

/// See [`lemma_expression_extends`].
pub proof fn lemma_infixes_extend(
    tokens: Seq<TokenView>,
    longer: Seq<TokenView>,
    pos: int,
    left: ExprView,
    rbp: u8,
)
    requires
        continues_with_a_stop(tokens, longer),
        0 <= pos <= tokens.len(),
    ensures
        parse_infixes(tokens, pos, left, rbp) is Ok ==> parse_infixes(longer, pos, left, rbp)
            == parse_infixes(tokens, pos, left, rbp),
    decreases remaining(tokens, pos), 1int,
{
    if pos < tokens.len() {
        assert(longer[pos] == tokens[pos]);
        if binding_power(tokens[pos]) > rbp {
            lemma_infix_extends(tokens, longer, pos, left);
            lemma_infix_advances(tokens, pos, left);
            if let Ok((joined, next)) = parse_infix(tokens, pos, left) {
                lemma_infixes_extend(tokens, longer, next, joined, rbp);
            }
        }
    }
}

/// See [`lemma_expression_extends`].
pub proof fn lemma_infix_extends(
    tokens: Seq<TokenView>,
    longer: Seq<TokenView>,
    pos: int,
    left: ExprView,
)
    requires
        continues_with_a_stop(tokens, longer),
        0 <= pos < tokens.len(),
    ensures
        parse_infix(tokens, pos, left) is Ok ==> parse_infix(longer, pos, left) == parse_infix(
            tokens,
            pos,
            left,
        ),
    decreases remaining(tokens, pos), 0int,
{
    let op = tokens[pos];
    assert(longer[pos] == op);
    if is_binary_operator(op) {
        lemma_expression_extends(tokens, longer, pos + 1, binding_power(op));
    } else {
        match op {
            TokenView::Equal | TokenView::FatArrow | TokenView::Comma | TokenView::At
            | TokenView::Hash => {
                lemma_expression_extends(tokens, longer, pos + 1, binding_power(op));
            },
            TokenView::Dot => {
                if pos + 1 < tokens.len() {
                    assert(longer[pos + 1] == tokens[pos + 1]);
                    if pos + 2 < tokens.len() {
                        assert(longer[pos + 2] == tokens[pos + 2]);
                    }
                    if token_is(tokens, pos + 2, TokenView::LParen) {
                        lemma_group_extends(tokens, longer, pos + 3, TokenView::RParen);
                    }
                }
            },
            TokenView::LParen => {
                lemma_group_extends(tokens, longer, pos + 1, TokenView::RParen);
            },
            TokenView::Colon => {
                lemma_type_extends(tokens, longer, pos + 1);
            },
            _ => {},
        }
    }
}

/// See [`lemma_expression_extends`].
pub proof fn lemma_type_extends(tokens: Seq<TokenView>, longer: Seq<TokenView>, pos: int)
    requires
        continues_with_a_stop(tokens, longer),
        0 <= pos,
    ensures
        parse_type(tokens, pos) is Ok ==> parse_type(longer, pos) == parse_type(tokens, pos),
    decreases remaining(tokens, pos), 5int,
{
    if parse_type(tokens, pos) is Ok {
        assert(longer[pos] == tokens[pos]);
        if token_is(tokens, pos + 1, TokenView::LParen) {
            assert(longer[pos + 1] == tokens[pos + 1]);
            lemma_group_extends(tokens, longer, pos + 2, TokenView::RParen);
            lemma_type_extends(tokens, longer, pos + 2);
            lemma_type_advances(tokens, pos + 2);
            if let Ok((_, next)) = parse_type(tokens, pos + 2) {
                if next < tokens.len() {
                    assert(longer[next] == tokens[next]);
                }
            }
        }
    }
}

/// Tokens behind a complete expression are a failure: where `tokens` spell one
/// expression, `tokens` followed by a token that continues no expression (a statement
/// separator, a literal, an identifier, a closing bracket) and anything behind it has
/// no tree, and the fault is the first token left over.
pub proof fn lemma_trailing_tokens_fail(tokens: Seq<TokenView>, longer: Seq<TokenView>)
    requires
        parse(tokens) is Ok,
        continues_with_a_stop(tokens, longer),
    ensures
        parse(longer) == Err::<ExprView, ParseFailure>(
            failure(ParseErrorKind::TrailingTokens, tokens.len() as int),
        ),
{
    lemma_expression_extends(tokens, longer, 0, 0);
}

/// The tokens that are an expression by themselves: a literal or an identifier.
pub open spec fn is_atom(token: TokenView) -> bool {
    token is U64 || token is F64 || token is Symbol
}

/// The node of a literal or an identifier, without an annotation.
pub open spec fn atom(token: TokenView) -> ExprView {
    match token {
        TokenView::F64(val) => ExprView::Float { val, typ: TypeView::Unknown },
        TokenView::U64(val) => ExprView::Integer { val, typ: TypeView::Unknown },
        TokenView::Symbol(name) => ExprView::Identifier { name, typ: TypeView::Unknown },
        _ => ExprView::Unit,
    }
}

/// A binary node.
pub open spec fn binary(left: ExprView, op: TokenView, right: ExprView) -> ExprView {
    ExprView::Binary { left: Box::new(left), op, right: Box::new(right) }
}

/// The binary operators that continue an expression.
pub open spec fn is_infix_binary(op: TokenView) -> bool {
    is_binary_operator(op) && binding_power(op) > 0
}

/// The outcome of reading `tree` up to `next`.
pub open spec fn reads(tree: ExprView, next: int) -> Result<(ExprView, int), ParseFailure> {
    Ok((tree, next))
}

/// An atom at `pos` is read as its node, one token long.
proof fn lemma_atom(tokens: Seq<TokenView>, pos: int)
    requires
        0 <= pos < tokens.len(),
        is_atom(tokens[pos]),
    ensures
        parse_prefix(tokens, pos) == reads(atom(tokens[pos]), pos + 1),
{
}

/// Two binary operators between three atoms, `a + b * c`: operators group to the left
/// unless the second binds more tightly than the first. With operators of one power,
/// and with a second operator that binds less tightly, the first two atoms are joined
/// first, as in `(a - b) - c`; with a second operator that binds more tightly the last
/// two are, as in `a + (b * c)`.
pub proof fn lemma_two_operators(
    a: TokenView,
    first_op: TokenView,
    b: TokenView,
    second_op: TokenView,
    c: TokenView,
)
    requires
        is_atom(a),
        is_atom(b),
        is_atom(c),
        is_infix_binary(first_op),
        is_infix_binary(second_op),
    ensures
        binding_power(second_op) <= binding_power(first_op) ==> parse(
            seq![a, first_op, b, second_op, c],
        ) == Ok::<ExprView, ParseFailure>(
            binary(binary(atom(a), first_op, atom(b)), second_op, atom(c)),
        ),
        binding_power(second_op) > binding_power(first_op) ==> parse(
            seq![a, first_op, b, second_op, c],
        ) == Ok::<ExprView, ParseFailure>(
            binary(atom(a), first_op, binary(atom(b), second_op, atom(c))),
        ),
{
    let ts = seq![a, first_op, b, second_op, c];
    let first_power = binding_power(first_op);
    let second_power = binding_power(second_op);
    assert(ts.len() == 5);
    assert(ts[0] == a && ts[1] == first_op && ts[2] == b && ts[3] == second_op && ts[4] == c);
    lemma_atom(ts, 0);
    lemma_atom(ts, 2);
    lemma_atom(ts, 4);
    // the last operand, read behind the second operator
    assert(parse_infixes(ts, 5, atom(c), second_power) == reads(atom(c), 5));
    assert(parse_expression(ts, 4, second_power) == reads(atom(c), 5));
    if second_power <= first_power {
        let first = binary(atom(a), first_op, atom(b));
        let whole = binary(first, second_op, atom(c));
        assert(parse_infixes(ts, 3, atom(b), first_power) == reads(atom(b), 3));
        assert(parse_expression(ts, 2, first_power) == reads(atom(b), 3));
        assert(parse_infix(ts, 1, atom(a)) == reads(first, 3));
        assert(parse_infix(ts, 3, first) == reads(whole, 5));
        assert(parse_infixes(ts, 5, whole, 0) == reads(whole, 5));
        assert(parse_infixes(ts, 3, first, 0) == reads(whole, 5));
        assert(parse_infixes(ts, 1, atom(a), 0) == reads(whole, 5));
        assert(parse_expression(ts, 0, 0) == reads(whole, 5));
    } else {
        let second = binary(atom(b), second_op, atom(c));
        let whole = binary(atom(a), first_op, second);
        assert(parse_infix(ts, 3, atom(b)) == reads(second, 5));
        assert(parse_infixes(ts, 5, second, first_power) == reads(second, 5));
        assert(parse_infixes(ts, 3, atom(b), first_power) == reads(second, 5));
        assert(parse_expression(ts, 2, first_power) == reads(second, 5));
        assert(parse_infix(ts, 1, atom(a)) == reads(whole, 5));
        assert(parse_infixes(ts, 5, whole, 0) == reads(whole, 5));
        assert(parse_infixes(ts, 1, atom(a), 0) == reads(whole, 5));
        assert(parse_expression(ts, 0, 0) == reads(whole, 5));
    }
}

} // verus!

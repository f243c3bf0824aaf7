//! What parsing means: the tree of a token sequence, as functions on `Seq<TokenView>`.
//!
//! Every function here takes the whole token sequence and a position in it, and gives
//! the tree it reads from that position together with the position after it.

use vstd::prelude::*;
use crate::expr::ExprView;
use crate::token::TokenView;
use crate::types::{is_reserved_type_name, named_type, ShapeView, TypeView};

verus! {

/// The ways in which a token sequence can fail to be an expression.
#[derive(Clone, Copy, Debug, PartialEq, Eq, Structural)]
pub enum ParseErrorKind {
    /// The tokens ended where an expression had to start.
    UnexpectedEnd,
    /// The token cannot start an expression.
    UnexpectedStart,
    /// `[` and `]` enclose something other than a tuple.
    ListItems,
    /// The closing token of a group is not where the group ends.
    MissingCloser,
    /// `=` stands behind something other than an identifier.
    AssignTarget,
    /// `=>` stands behind something other than an identifier or a tuple.
    LambdaParam,
    /// `.` is not followed by a symbol.
    CalleeName,
    /// `(` stands behind something other than an identifier, a lambda or a buffer marker.
    CallTarget,
    /// The arguments of a buffer are not an integer literal and an identifier.
    BufferArgs,
    /// `:` stands behind something other than an identifier or a numeric literal.
    AnnotationTarget,
    /// `@` is not followed by an identifier.
    MoveDevice,
    /// `#` stands behind something other than an identifier.
    MetaName,
    /// `:` is not followed by a symbol, or the symbol is `tensor`, `list` or `tuple`
    /// where a type has to be named.
    TypeName,
    /// The argument group of `tensor` or `list` is missing or malformed.
    TypeArguments,
    /// The operator has no infix production.
    UnexpectedInfix,
    /// Tokens are left over behind a complete expression.
    TrailingTokens,
}

/// Why a token sequence has no tree: the kind of fault, the position of the token at
/// fault (the length of the sequence where it ended too early), and for an operator
/// without an infix production the tree that was built to its left.
pub ghost struct ParseFailure {
    pub kind: ParseErrorKind,
    pub at: int,
    pub left: Option<ExprView>,
}

/// A failure that carries no tree.
pub open spec fn failure(kind: ParseErrorKind, at: int) -> ParseFailure {
    ParseFailure { kind, at, left: None }
}

/// How tightly an operator binds; 0 for a token that is no infix operator.
pub open spec fn binding_power(token: TokenView) -> u8 {
    match token {
        TokenView::Comma => 1,
        TokenView::FatArrow => 2,
        TokenView::Equal | TokenView::Hash => 3,
        TokenView::DoubleEqual
        | TokenView::NotEqual
        | TokenView::GreatThan
        | TokenView::GreatThanEq
        | TokenView::LessThan
        | TokenView::LessThanEq => 5,
        TokenView::Plus | TokenView::Minus => 10,
        TokenView::Star | TokenView::Slash | TokenView::Mod => 20,
        TokenView::Not => 30,
        TokenView::Dot | TokenView::LParen | TokenView::LBracket => 40,
        TokenView::At => 49,
        TokenView::Colon => 50,
        _ => 0,
    }
}

/// The power at which the operand of a unary operator is read: above every operator,
/// so that the operand ends before the next one.
pub open spec fn unary_power() -> u8 {
    128
}

/// The operators that build a binary node.
pub open spec fn is_binary_operator(token: TokenView) -> bool {
    match token {
        TokenView::Plus
        | TokenView::Minus
        | TokenView::Star
        | TokenView::Slash
        | TokenView::Mod
        | TokenView::LogicAnd
        | TokenView::LogicOr
        | TokenView::And
        | TokenView::Or
        | TokenView::Xor
        | TokenView::DoubleEqual
        | TokenView::NotEqual
        | TokenView::LessThan
        | TokenView::LessThanEq
        | TokenView::GreatThan
        | TokenView::GreatThanEq => true,
        _ => false,
    }
}

/// Whether the token at `pos` exists and is `token`.
pub open spec fn token_is(tokens: Seq<TokenView>, pos: int, token: TokenView) -> bool {
    0 <= pos < tokens.len() && tokens[pos] == token
}

/// An identifier without an annotation.
pub open spec fn identifier(name: Seq<char>) -> ExprView {
    ExprView::Identifier { name, typ: TypeView::Unknown }
}

/// `left , right`: a tuple on the left takes the items of a tuple on the right, or the
/// right operand as one more item; anything else on the left starts a pair.
pub open spec fn join_tuple(left: ExprView, right: ExprView) -> ExprView {
    match left {
        ExprView::Tuple(items) => match right {
            ExprView::Tuple(more) => ExprView::Tuple(items + more),
            _ => ExprView::Tuple(items.push(right)),
        },
        _ => ExprView::Tuple(seq![left, right]),
    }
}

/// The arguments of `left . callee` with the group `group` behind the callee: `left`
/// first, then what the group holds: nothing for an empty group, the items of a tuple,
/// or the one expression.
pub open spec fn method_arguments(left: ExprView, group: ExprView) -> Seq<ExprView> {
    seq![left] + group_items(group)
}

/// `left ( group )`: a call where `left` is an identifier or a lambda; where it is a
/// buffer marker, the buffer of the size and placement that the group names.
pub open spec fn apply_group(left: ExprView, group: ExprView) -> Result<
    ExprView,
    ParseErrorKind,
> {
    match left {
        ExprView::Identifier { .. } | ExprView::Lambda { .. } => Ok(
            ExprView::Call { callee: Box::new(left), args: Box::new(group) },
        ),
        ExprView::Buffer { .. } => match group {
            ExprView::Tuple(items) => if items.len() == 2 {
                match (items[0], items[1]) {
                    (ExprView::Integer { val, .. }, ExprView::Identifier { name, .. }) => Ok(
                        ExprView::Buffer { size: val, anno: name },
                    ),
                    _ => Err(ParseErrorKind::BufferArgs),
                }
            } else {
                Err(ParseErrorKind::BufferArgs)
            },
            _ => Err(ParseErrorKind::BufferArgs),
        },
        _ => Err(ParseErrorKind::CallTarget),
    }
}

/// `left : typ`: the node with its type replaced, for an identifier and a literal.
pub open spec fn annotate(left: ExprView, typ: TypeView) -> Result<ExprView, ParseErrorKind> {
    match left {
        ExprView::Identifier { name, .. } => Ok(ExprView::Identifier { name, typ }),
        ExprView::Float { val, .. } => Ok(ExprView::Float { val, typ }),
        ExprView::Integer { val, .. } => Ok(ExprView::Integer { val, typ }),
        _ => Err(ParseErrorKind::AnnotationTarget),
    }
}

/// The arguments that a group holds: none for an empty group, the items of a tuple, or
/// the one expression.
pub open spec fn group_items(group: ExprView) -> Seq<ExprView> {
    match group {
        ExprView::Unit => Seq::empty(),
        ExprView::Tuple(items) => items,
        _ => seq![group],
    }
}

/// The tensor type of an element type and the extents read: without extents the shape
/// is unconstrained.
pub open spec fn tensor_of(dtype: TypeView, extents: Seq<u64>) -> TypeView {
    TypeView::Tensor {
        dtype: Box::new(dtype),
        shape: if extents.len() > 0 {
            ShapeView::Shape(extents)
        } else {
            ShapeView::Any
        },
    }
}

/// The tensor type that the arguments from `i` on give, with the extents and the
/// element type read before them.
///
/// An integer literal is one more extent. A name is the element type; a second name
/// ends the reading if it is `any`, and is a fault otherwise.
pub open spec fn tensor_from(
    args: Seq<ExprView>,
    i: int,
    extents: Seq<u64>,
    dtype: TypeView,
) -> Result<TypeView, ParseErrorKind>
    decreases args.len() - i,
{
    if i < 0 || i >= args.len() {
        Ok(tensor_of(dtype, extents))
    } else {
        match args[i] {
            ExprView::Integer { val, .. } => tensor_from(args, i + 1, extents.push(val), dtype),
            ExprView::Identifier { name, .. } => if is_reserved_type_name(name) {
                Err(ParseErrorKind::TypeName)
            } else if !(dtype is Unknown) {
                if named_type(name) is Any {
                    Ok(tensor_of(dtype, extents))
                } else {
                    Err(ParseErrorKind::TypeArguments)
                }
            } else {
                tensor_from(args, i + 1, extents, named_type(name))
            },
            _ => Err(ParseErrorKind::TypeArguments),
        }
    }
}

/// The tensor type that the argument group of `tensor` names.
pub open spec fn tensor_type(group: ExprView) -> Result<TypeView, ParseErrorKind> {
    tensor_from(group_items(group), 0, Seq::empty(), TypeView::Unknown)
}

/// The number of tokens from `pos` on.
pub open spec fn remaining(tokens: Seq<TokenView>, pos: int) -> nat {
    if 0 <= pos <= tokens.len() {
        (tokens.len() - pos) as nat
    } else {
        0
    }
}

/// The expression that starts at `pos`, read as far as operators bind more tightly
/// than `rbp`: what the token at `pos` starts, and the infix operators behind it.
///
/// What one token starts is never empty ([`lemma_prefix_advances`]); the test for it
/// is there for the recursion to be well founded.
pub open spec fn parse_expression(tokens: Seq<TokenView>, pos: int, rbp: u8) -> Result<
    (ExprView, int),
    ParseFailure,
>
    decreases remaining(tokens, pos), 3int,
{
    if pos < 0 || pos >= tokens.len() {
        Err(failure(ParseErrorKind::UnexpectedEnd, tokens.len() as int))
    } else {
        match parse_prefix(tokens, pos) {
            Err(e) => Err(e),
            Ok((left, next)) => if pos < next {
                parse_infixes(tokens, next, left, rbp)
            } else {
                Ok((left, next))
            },
        }
    }
}

/// What one token can start: a literal, an identifier, a unary operator with its
/// operand, a group in `(` `)`, a list in `[` `]`, or a buffer marker.
pub open spec fn parse_prefix(tokens: Seq<TokenView>, pos: int) -> Result<
    (ExprView, int),
    ParseFailure,
>
    recommends
        0 <= pos < tokens.len(),
    decreases remaining(tokens, pos), 2int,
    when 0 <= pos < tokens.len()
{
    match tokens[pos] {
        TokenView::F64(val) => Ok((ExprView::Float { val, typ: TypeView::Unknown }, pos + 1)),
        TokenView::U64(val) => Ok((ExprView::Integer { val, typ: TypeView::Unknown }, pos + 1)),
        TokenView::Symbol(name) => Ok((identifier(name), pos + 1)),
        TokenView::Cache => Ok((ExprView::Buffer { size: 0, anno: Seq::empty() }, pos + 1)),
        TokenView::Minus | TokenView::Star => match parse_expression(
            tokens,
            pos + 1,
            unary_power(),
        ) {
            Err(e) => Err(e),
            Ok((arg, next)) => Ok((ExprView::Unary { op: tokens[pos], arg: Box::new(arg) }, next)),
        },
        TokenView::LParen => parse_group(tokens, pos + 1, TokenView::RParen),
        TokenView::LBracket => match parse_group(tokens, pos + 1, TokenView::RBracket) {
            Err(e) => Err(e),
            Ok((ExprView::Tuple(items), next)) => Ok((ExprView::List(items), next)),
            Ok(_) => Err(failure(ParseErrorKind::ListItems, pos)),
        },
        _ => Err(failure(ParseErrorKind::UnexpectedStart, pos)),
    }
}

/// What stands between an opening bracket and `closer`, from the position behind the
/// opening bracket: the unit for an empty pair, or else one expression, behind which
/// `closer` has to stand.
pub open spec fn parse_group(tokens: Seq<TokenView>, pos: int, closer: TokenView) -> Result<
    (ExprView, int),
    ParseFailure,
>
    decreases remaining(tokens, pos), 4int,
{
    if token_is(tokens, pos, closer) {
        Ok((ExprView::Unit, pos + 1))
    } else {
        match parse_expression(tokens, pos, 0) {
            Err(e) => Err(e),
            Ok((inner, next)) => if token_is(tokens, next, closer) {
                Ok((inner, next + 1))
            } else {
                Err(failure(ParseErrorKind::MissingCloser, next))
            },
        }
    }
}

/// The infix operators from `pos` on that bind more tightly than `rbp`, applied one
/// after the other to the tree `left` built so far. It ends before the first token
/// whose power is `rbp` or less, and at the end of the tokens.
///
/// An infix production is never empty ([`lemma_infix_advances`]); the test for it is
/// there for the recursion to be well founded.
pub open spec fn parse_infixes(tokens: Seq<TokenView>, pos: int, left: ExprView, rbp: u8) -> Result<
    (ExprView, int),
    ParseFailure,
>
    decreases remaining(tokens, pos), 1int,
{
    if pos < 0 || pos >= tokens.len() || binding_power(tokens[pos]) <= rbp {
        Ok((left, pos))
    } else {
        match parse_infix(tokens, pos, left) {
            Err(e) => Err(e),
            Ok((joined, next)) => if pos < next {
                parse_infixes(tokens, next, joined, rbp)
            } else {
                Ok((joined, next))
            },
        }
    }
}

/// One infix production: the operator at `pos` applied to `left` and to what it reads
/// behind itself. An operator reads its right operand at its own binding power, so
/// that operators of one power group to the left.
pub open spec fn parse_infix(tokens: Seq<TokenView>, pos: int, left: ExprView) -> Result<
    (ExprView, int),
    ParseFailure,
>
    recommends
        0 <= pos < tokens.len(),
    decreases remaining(tokens, pos), 0int,
    when 0 <= pos < tokens.len()
{
    let op = tokens[pos];
    let power = binding_power(op);
    if is_binary_operator(op) {
        match parse_expression(tokens, pos + 1, power) {
            Err(e) => Err(e),
            Ok((right, next)) => Ok(
                (ExprView::Binary { left: Box::new(left), op, right: Box::new(right) }, next),
            ),
        }
    } else {
        match op {
            TokenView::Equal => if left is Identifier {
                match parse_expression(tokens, pos + 1, power) {
                    Err(e) => Err(e),
                    Ok((val, next)) => Ok(
                        (ExprView::Assign { name: Box::new(left), val: Box::new(val) }, next),
                    ),
                }
            } else {
                Err(failure(ParseErrorKind::AssignTarget, pos))
            },
            TokenView::FatArrow => if left is Identifier || left is Tuple {
                match parse_expression(tokens, pos + 1, power) {
                    Err(e) => Err(e),
                    Ok((body, next)) => Ok(
                        (ExprView::Lambda { param: Box::new(left), body: Box::new(body) }, next),
                    ),
                }
            } else {
                Err(failure(ParseErrorKind::LambdaParam, pos))
            },
            TokenView::Dot => if pos + 1 < tokens.len() && tokens[pos + 1] is Symbol {
                let callee = Box::new(identifier(tokens[pos + 1]->Symbol_0));
                if token_is(tokens, pos + 2, TokenView::LParen) {
                    match parse_group(tokens, pos + 3, TokenView::RParen) {
                        Err(e) => Err(e),
                        Ok((group, next)) => Ok(
                            (
                                ExprView::Call {
                                    callee,
                                    args: Box::new(
                                        ExprView::Tuple(method_arguments(left, group)),
                                    ),
                                },
                                next,
                            ),
                        ),
                    }
                } else {
                    Ok(
                        (
                            ExprView::Call {
                                callee,
                                args: Box::new(ExprView::Tuple(seq![left])),
                            },
                            pos + 2,
                        ),
                    )
                }
            } else {
                Err(failure(ParseErrorKind::CalleeName, pos + 1))
            },
            TokenView::Comma => match parse_expression(tokens, pos + 1, power) {
                Err(e) => Err(e),
                Ok((right, next)) => Ok((join_tuple(left, right), next)),
            },
            TokenView::LParen => match parse_group(tokens, pos + 1, TokenView::RParen) {
                Err(e) => Err(e),
                Ok((group, next)) => match apply_group(left, group) {
                    Ok(joined) => Ok((joined, next)),
                    Err(kind) => Err(failure(kind, pos)),
                },
            },
            TokenView::Colon => match parse_type(tokens, pos + 1) {
                Err(e) => Err(e),
                Ok((typ, next)) => match annotate(left, typ) {
                    Ok(joined) => Ok((joined, next)),
                    Err(kind) => Err(failure(kind, pos)),
                },
            },
            TokenView::At => match parse_expression(tokens, pos + 1, power) {
                Err(e) => Err(e),
                Ok((device, next)) => if device is Identifier {
                    Ok((ExprView::Move { val: Box::new(left), device: Box::new(device) }, next))
                } else {
                    Err(failure(ParseErrorKind::MoveDevice, pos))
                },
            },
            TokenView::Hash => match parse_expression(tokens, pos + 1, power) {
                Err(e) => Err(e),
                Ok((val, next)) => match left {
                    ExprView::Identifier { name, .. } => Ok(
                        (ExprView::MetaDefine { name, val: Box::new(val) }, next),
                    ),
                    _ => Err(failure(ParseErrorKind::MetaName, pos)),
                },
            },
            _ => Err(
                ParseFailure { kind: ParseErrorKind::UnexpectedInfix, at: pos, left: Some(left) },
            ),
        }
    }
}

/// The type annotation that starts at `pos`, the position behind a `:`.
///
/// `tensor` takes a group of extents and an element type, `list` a group that holds
/// one annotation, and any other symbol names a type by itself.
pub open spec fn parse_type(tokens: Seq<TokenView>, pos: int) -> Result<
    (TypeView, int),
    ParseFailure,
>
    decreases remaining(tokens, pos), 5int,
{
    if 0 <= pos < tokens.len() && tokens[pos] is Symbol {
        let name = tokens[pos]->Symbol_0;
        if name == "tensor"@ {
            if token_is(tokens, pos + 1, TokenView::LParen) {
                match parse_group(tokens, pos + 2, TokenView::RParen) {
                    Err(e) => Err(e),
                    Ok((group, next)) => match tensor_type(group) {
                        Ok(typ) => Ok((typ, next)),
                        Err(kind) => Err(failure(kind, pos)),
                    },
                }
            } else {
                Err(failure(ParseErrorKind::TypeArguments, pos + 1))
            }
        } else if name == "list"@ {
            if token_is(tokens, pos + 1, TokenView::LParen) {
                match parse_type(tokens, pos + 2) {
                    Err(e) => Err(e),
                    Ok((item, next)) => if token_is(tokens, next, TokenView::RParen) {
                        Ok((TypeView::List(Box::new(item)), next + 1))
                    } else {
                        Err(failure(ParseErrorKind::MissingCloser, next))
                    },
                }
            } else {
                Err(failure(ParseErrorKind::TypeArguments, pos + 1))
            }
        } else if is_reserved_type_name(name) {
            Err(failure(ParseErrorKind::TypeName, pos))
        } else {
            Ok((named_type(name), pos + 1))
        }
    } else {
        Err(failure(ParseErrorKind::TypeName, pos))
    }
}

/// The one expression that the tokens from `pos` on spell, all of them: tokens left
/// over behind it are a failure.
pub open spec fn parse_all(tokens: Seq<TokenView>, pos: int) -> Result<ExprView, ParseFailure> {
    match parse_expression(tokens, pos, 0) {
        Err(e) => Err(e),
        Ok((tree, next)) => if next == tokens.len() {
            Ok(tree)
        } else {
            Err(failure(ParseErrorKind::TrailingTokens, next))
        },
    }
}

/// The tree of a token sequence, or why it has none.
pub open spec fn parse(tokens: Seq<TokenView>) -> Result<ExprView, ParseFailure> {
    parse_all(tokens, 0)
}

/// Every production reads at least one token and ends within the sequence.
pub proof fn lemma_expression_advances(tokens: Seq<TokenView>, pos: int, rbp: u8)
    ensures
        parse_expression(tokens, pos, rbp) matches Ok((_, next)) ==> pos < next <= tokens.len(),
    decreases remaining(tokens, pos), 3int,
{
    if 0 <= pos < tokens.len() {
        lemma_prefix_advances(tokens, pos);
        if let Ok((left, next)) = parse_prefix(tokens, pos) {
            lemma_infixes_advance(tokens, next, left, rbp);
        }
    }
}

/// See [`lemma_expression_advances`].
pub proof fn lemma_prefix_advances(tokens: Seq<TokenView>, pos: int)
    requires
        0 <= pos < tokens.len(),
    ensures
        parse_prefix(tokens, pos) matches Ok((_, next)) ==> pos < next <= tokens.len(),
    decreases remaining(tokens, pos), 2int,
{
    match tokens[pos] {
        TokenView::Minus | TokenView::Star => {
            lemma_expression_advances(tokens, pos + 1, unary_power());
        },
        TokenView::LParen => {
            lemma_group_advances(tokens, pos + 1, TokenView::RParen);
        },
        TokenView::LBracket => {
            lemma_group_advances(tokens, pos + 1, TokenView::RBracket);
        },
        _ => {},
    }
}

/// See [`lemma_expression_advances`].
pub proof fn lemma_group_advances(tokens: Seq<TokenView>, pos: int, closer: TokenView)
    ensures
        parse_group(tokens, pos, closer) matches Ok((_, next)) ==> pos < next <= tokens.len(),
    decreases remaining(tokens, pos), 4int,
{
    if !token_is(tokens, pos, closer) {
        lemma_expression_advances(tokens, pos, 0);
    }
}

/// A run of infix productions ends at or behind its start, within the sequence.
pub proof fn lemma_infixes_advance(tokens: Seq<TokenView>, pos: int, left: ExprView, rbp: u8)
    requires
        0 <= pos <= tokens.len(),
    ensures
        parse_infixes(tokens, pos, left, rbp) matches Ok((_, next)) ==> pos <= next
            <= tokens.len(),
    decreases remaining(tokens, pos), 1int,
{
    if pos < tokens.len() && binding_power(tokens[pos]) > rbp {
        lemma_infix_advances(tokens, pos, left);
        if let Ok((joined, next)) = parse_infix(tokens, pos, left) {
            lemma_infixes_advance(tokens, next, joined, rbp);
        }
    }
}

/// See [`lemma_expression_advances`].
pub proof fn lemma_infix_advances(tokens: Seq<TokenView>, pos: int, left: ExprView)
    requires
        0 <= pos < tokens.len(),
    ensures
        parse_infix(tokens, pos, left) matches Ok((_, next)) ==> pos < next <= tokens.len(),
    decreases remaining(tokens, pos), 0int,
{
    let op = tokens[pos];
    if is_binary_operator(op) {
        lemma_expression_advances(tokens, pos + 1, binding_power(op));
    } else {
        match op {
            TokenView::Equal | TokenView::FatArrow | TokenView::Comma | TokenView::At
            | TokenView::Hash => {
                lemma_expression_advances(tokens, pos + 1, binding_power(op));
            },
            TokenView::Dot => {
                if token_is(tokens, pos + 2, TokenView::LParen) {
                    lemma_group_advances(tokens, pos + 3, TokenView::RParen);
                }
            },
            TokenView::LParen => {
                lemma_group_advances(tokens, pos + 1, TokenView::RParen);
            },
            TokenView::Colon => {
                lemma_type_advances(tokens, pos + 1);
            },
            _ => {},
        }
    }
}

/// See [`lemma_expression_advances`].
pub proof fn lemma_type_advances(tokens: Seq<TokenView>, pos: int)
    ensures
        parse_type(tokens, pos) matches Ok((_, next)) ==> pos < next <= tokens.len(),
    decreases remaining(tokens, pos), 5int,
{
    if 0 <= pos < tokens.len() && tokens[pos] is Symbol {
        if token_is(tokens, pos + 1, TokenView::LParen) {
            lemma_group_advances(tokens, pos + 2, TokenView::RParen);
            lemma_type_advances(tokens, pos + 2);
        }
    }
}

} // verus!

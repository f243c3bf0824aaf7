//! The expression parser: tokens to a syntax tree, by precedence climbing.

use vstd::prelude::*;
use crate::expr::{expr_views, Expr, ExprView};
use crate::grammar;
use crate::grammar::{ParseErrorKind, ParseFailure};
use crate::text::same_text;
use crate::token::{token_views, Token, TokenView};
use crate::types::{TensorShapeType, Type};

verus! {

/// Why parsing failed: the kind of fault, the index of the token at fault (the number
/// of tokens where they ended too early), and for an operator without an infix
/// production the tree that was built to its left.
#[derive(Debug, PartialEq)]
pub struct ParseError {
    pub kind: ParseErrorKind,
    pub at: usize,
    pub left: Option<Expr>,
}

impl View for ParseError {
    type V = ParseFailure;

    open spec fn view(&self) -> ParseFailure {
        ParseFailure {
            kind: self.kind,
            at: self.at as int,
            left: match self.left {
                Some(tree) => Some(tree@),
                None => None,
            },
        }
    }
}

/// An error that carries no tree.
fn fault(kind: ParseErrorKind, at: usize) -> (e: ParseError)
    ensures
        e@ == grammar::failure(kind, at as int),
{
    ParseError { kind, at, left: None }
}

/// Whether a result and the position reached are what the grammar gives.
pub open spec fn agrees<T: View>(
    r: Result<T, ParseError>,
    reached: int,
    model: Result<(T::V, int), ParseFailure>,
) -> bool {
    match (model, r) {
        (Ok((value, next)), Ok(got)) => got@ == value && reached == next,
        (Err(failure), Err(e)) => e@ == failure,
        _ => false,
    }
}

/// `left , right` as one tuple.
fn join_tuple(left: Expr, right: Expr) -> (r: Expr)
    ensures
        r@ == grammar::join_tuple(left@, right@),
{
    match left {
        Expr::Tuple(items) => {
            let mut items = items;
            match right {
                Expr::Tuple(more) => {
                    let mut more = more;
                    let ghost before = items@;
                    let ghost added = more@;
                    items.append(&mut more);
                    assert(expr_views(items@) =~= expr_views(before) + expr_views(added));
                    Expr::Tuple(items)
                },
                other => {
                    let ghost before = items@;
                    items.push(other);
                    assert(expr_views(items@) =~= expr_views(before).push(other@));
                    Expr::Tuple(items)
                },
            }
        },
        other => {
            let mut items: Vec<Expr> = Vec::new();
            items.push(other);
            items.push(right);
            assert(expr_views(items@) =~= seq![other@, right@]);
            Expr::Tuple(items)
        },
    }
}

/// The arguments that a group holds.
fn group_items(group: Expr) -> (items: Vec<Expr>)
    ensures
        expr_views(items@) == grammar::group_items(group@),
{
    match group {
        Expr::Unit => {
            let items: Vec<Expr> = Vec::new();
            assert(expr_views(items@) =~= Seq::empty());
            items
        },
        Expr::Tuple(items) => items,
        other => {
            let mut items: Vec<Expr> = Vec::new();
            items.push(other);
            assert(expr_views(items@) =~= seq![other@]);
            items
        },
    }
}

/// The arguments of a method-style call: the receiver, then what the group holds.
fn method_arguments(left: Expr, group: Expr) -> (items: Vec<Expr>)
    ensures
        expr_views(items@) == grammar::method_arguments(left@, group@),
{
    let mut items: Vec<Expr> = Vec::new();
    items.push(left);
    let mut rest = group_items(group);
    let ghost added = rest@;
    items.append(&mut rest);
    assert(expr_views(items@) =~= seq![left@] + expr_views(added));
    items
}

/// `left ( group )`: a call, or a buffer of the size and placement that the group names.
fn apply_group(left: Expr, group: Expr) -> (r: Result<Expr, ParseErrorKind>)
    ensures
        match grammar::apply_group(left@, group@) {
            Ok(joined) => r is Ok && r.unwrap()@ == joined,
            Err(kind) => r == Err::<Expr, ParseErrorKind>(kind),
        },
{
    match left {
        Expr::Identifier { .. } | Expr::Lambda { .. } => {
            return Ok(Expr::Call { callee: Box::new(left), args: Box::new(group) });
        },
        Expr::Buffer { .. } => match group {
            Expr::Tuple(items) => {
                assert(expr_views(items@).len() == items@.len());
                if items.len() == 2 {
                    assert(expr_views(items@)[0] == items@[0]@);
                    assert(expr_views(items@)[1] == items@[1]@);
                    match &items[0] {
                        Expr::Integer { val, .. } => match &items[1] {
                            Expr::Identifier { name, .. } => {
                                return Ok(Expr::Buffer { size: *val, anno: name.clone() });
                            },
                            _ => {
                                return Err(ParseErrorKind::BufferArgs);
                            },
                        },
                        _ => {
                            return Err(ParseErrorKind::BufferArgs);
                        },
                    }
                } else {
                    return Err(ParseErrorKind::BufferArgs);
                }
            },
            _ => {
                return Err(ParseErrorKind::BufferArgs);
            },
        },
        _ => {
            return Err(ParseErrorKind::CallTarget);
        },
    }
}

/// `left : typ`: the node with its type replaced.
fn annotate(left: Expr, typ: Type) -> (r: Result<Expr, ParseErrorKind>)
    ensures
        match grammar::annotate(left@, typ@) {
            Ok(joined) => r is Ok && r.unwrap()@ == joined,
            Err(kind) => r == Err::<Expr, ParseErrorKind>(kind),
        },
{
    match left {
        Expr::Identifier { name, typ: _ } => Ok(Expr::Identifier { name, typ }),
        Expr::Float { val, typ: _ } => Ok(Expr::Float { val, typ }),
        Expr::Integer { val, typ: _ } => Ok(Expr::Integer { val, typ }),
        _ => Err(ParseErrorKind::AnnotationTarget),
    }
}

/// The tensor type of an element type and the extents read.
fn tensor_of(dtype: Type, extents: Vec<u64>) -> (r: Type)
    ensures
        r@ == grammar::tensor_of(dtype@, extents@),
{
    if extents.len() != 0 {
        Type::Tensor { dtype: Box::new(dtype), shape: TensorShapeType::Shape(extents) }
    } else {
        Type::Tensor { dtype: Box::new(dtype), shape: TensorShapeType::Any }
    }
}

/// The tensor type that the argument group of `tensor` names.
fn tensor_type(group: Expr) -> (r: Result<Type, ParseErrorKind>)
    ensures
        match grammar::tensor_type(group@) {
            Ok(typ) => r is Ok && r.unwrap()@ == typ,
            Err(kind) => r == Err::<Type, ParseErrorKind>(kind),
        },
{
    let args = group_items(group);
    let mut extents: Vec<u64> = Vec::new();
    let mut dtype = Type::Unknown;
    let mut i: usize = 0;
    while i < args.len()
        invariant
            i <= args.len(),
            expr_views(args@) == grammar::group_items(group@),
            grammar::tensor_type(group@) == grammar::tensor_from(
                expr_views(args@),
                i as int,
                extents@,
                dtype@,
            ),
        decreases args.len() - i,
    {
        assert(expr_views(args@)[i as int] == args@[i as int]@);
        match &args[i] {
            Expr::Integer { val, .. } => {
                extents.push(*val);
            },
            Expr::Identifier { name, .. } => {
                if Type::is_reserved_name(name.as_str()) {
                    return Err(ParseErrorKind::TypeName);
                }
                let named = Type::from_str(name.as_str());
                match dtype {
                    Type::Unknown => {
                        dtype = named;
                    },
                    _ => {
                        match named {
                            Type::Any => {
                                return Ok(tensor_of(dtype, extents));
                            },
                            _ => {
                                return Err(ParseErrorKind::TypeArguments);
                            },
                        }
                    },
                }
            },
            _ => {
                return Err(ParseErrorKind::TypeArguments);
            },
        }
        i += 1;
    }
    Ok(tensor_of(dtype, extents))
}

/// Whether the operator builds a binary node.
fn is_binary_operator(token: &Token) -> (b: bool)
    ensures
        b == grammar::is_binary_operator(token@),
{
    match token {
        Token::Plus
        | Token::Minus
        | Token::Star
        | Token::Slash
        | Token::Mod
        | Token::LogicAnd
        | Token::LogicOr
        | Token::And
        | Token::Or
        | Token::Xor
        | Token::DoubleEqual
        | Token::NotEqual
        | Token::LessThan
        | Token::LessThanEq
        | Token::GreatThan
        | Token::GreatThanEq => true,
        _ => false,
    }
}

/// A parser of one expression.
pub trait Parser {
    /// The one expression that the input spells.
    fn parse_exprs(&mut self) -> Result<Expr, ParseError>;
}

/// A parser over a token sequence: the tokens, which it never changes, and a cursor,
/// which only moves forward.
pub struct TokenParser {
    tokens: Vec<Token>,
    pos: usize,
}

impl TokenParser {
    /// The tokens as the grammar sees them.
    pub closed spec fn tokens(&self) -> Seq<TokenView> {
        token_views(self.tokens@)
    }

    /// The index of the next token to read.
    pub closed spec fn position(&self) -> int {
        self.pos as int
    }

    /// A parser at the start of `tokens`.
    pub fn new(tokens: Vec<Token>) -> (parser: Self)
        ensures
            parser.tokens() == token_views(tokens@),
            parser.position() == 0,
    {
        TokenParser { tokens, pos: 0 }
    }

    /// The next token, if there is one.
    fn current(&self) -> (r: Option<&Token>)
        ensures
            match r {
                Some(token) => self.position() < self.tokens().len() && token@
                    == self.tokens()[self.position()],
                None => self.position() >= self.tokens().len(),
            },
            self.tokens().len() == self.tokens.len(),
    {
        if self.pos < self.tokens.len() {
            Some(&self.tokens[self.pos])
        } else {
            None
        }
    }

    /// Whether the next token exists and is `token`.
    fn at_token(&self, token: &Token) -> (b: bool)
        ensures
            b == grammar::token_is(self.tokens(), self.position(), token@),
            self.tokens().len() == self.tokens.len(),
    {
        match self.current() {
            Some(next) => next.same(token),
            None => false,
        }
    }

    /// Takes the next token.
    fn advance(&mut self) -> (token: Token)
        requires
            old(self).position() < old(self).tokens().len(),
        ensures
            token@ == old(self).tokens()[old(self).position()],
            final(self).tokens() == old(self).tokens(),
            final(self).position() == old(self).position() + 1,
            final(self).tokens == old(self).tokens,
            final(self).tokens().len() == final(self).tokens.len(),
    {
        assert(self.tokens().len() == self.tokens.len());
        let token = self.tokens[self.pos].clone();
        self.pos += 1;
        token
    }

    /// How tightly `token` binds as an infix operator; 0 for a token that is none.
    pub fn get_binding_power(&self, token: &Token) -> (power: u8)
        ensures
            power == grammar::binding_power(token@),
    {
        match token {
            Token::Comma => 1,
            Token::FatArrow => 2,
            Token::Equal | Token::Hash => 3,
            Token::DoubleEqual
            | Token::NotEqual
            | Token::GreatThan
            | Token::GreatThanEq
            | Token::LessThan
            | Token::LessThanEq => 5,
            Token::Plus | Token::Minus => 10,
            Token::Star | Token::Slash | Token::Mod => 20,
            Token::Not => 30,
            Token::Dot | Token::LParen | Token::LBracket => 40,
            Token::At => 49,
            Token::Colon => 50,
            _ => 0,
        }
    }

    /// Reads the type annotation behind a `:`.
    ///
    /// The type and the cursor afterwards are what [`grammar::parse_type`] gives at the
    /// cursor; on a failure the fault is what it gives, and the cursor has not moved back.
    pub fn parse_type_annotation(&mut self) -> (r: Result<Type, ParseError>)
        ensures
            final(self).tokens() == old(self).tokens(),
            old(self).position() <= final(self).position(),
            agrees(
                r,
                final(self).position(),
                grammar::parse_type(old(self).tokens(), old(self).position()),
            ),
        decreases grammar::remaining(old(self).tokens(), old(self).position()), 5int,
    {
        let at = self.pos;
        if at >= self.tokens.len() {
            return Err(fault(ParseErrorKind::TypeName, at));
        }
        match self.advance() {
            Token::Symbol(name) => {
                if same_text(name.as_str(), "tensor") {
                    if self.at_token(&Token::LParen) {
                        self.pos += 1;
                        match self.parse_sub_and_check_pair(Token::RParen) {
                            Ok(group) => match tensor_type(group) {
                                Ok(typ) => Ok(typ),
                                Err(kind) => Err(fault(kind, at)),
                            },
                            Err(e) => Err(e),
                        }
                    } else {
                        Err(fault(ParseErrorKind::TypeArguments, at + 1))
                    }
                } else if same_text(name.as_str(), "list") {
                    if self.at_token(&Token::LParen) {
                        self.pos += 1;
                        match self.parse_type_annotation() {
                            Ok(item) => {
                                if self.at_token(&Token::RParen) {
                                    self.pos += 1;
                                    Ok(Type::List(Box::new(item)))
                                } else {
                                    Err(fault(ParseErrorKind::MissingCloser, self.pos))
                                }
                            },
                            Err(e) => Err(e),
                        }
                    } else {
                        Err(fault(ParseErrorKind::TypeArguments, at + 1))
                    }
                } else if Type::is_reserved_name(name.as_str()) {
                    Err(fault(ParseErrorKind::TypeName, at))
                } else {
                    Ok(Type::from_str(name.as_str()))
                }
            },
            _ => Err(fault(ParseErrorKind::TypeName, at)),
        }
    }

    /// Reads what stands between an opening bracket, which was just read, and `expect`:
    /// the unit for an empty pair, or else one expression and then `expect`.
    ///
    /// The tree and the cursor afterwards are what [`grammar::parse_group`] gives at the
    /// cursor.
    pub fn parse_sub_and_check_pair(&mut self, expect: Token) -> (r: Result<Expr, ParseError>)
        ensures
            final(self).tokens() == old(self).tokens(),
            old(self).position() <= final(self).position(),
            agrees(
                r,
                final(self).position(),
                grammar::parse_group(old(self).tokens(), old(self).position(), expect@),
            ),
        decreases grammar::remaining(old(self).tokens(), old(self).position()), 4int,
    {
        if self.at_token(&expect) {
            self.pos += 1;
            return Ok(Expr::Unit);
        }
        match self.parse_expression(0) {
            Ok(inner) => {
                if self.at_token(&expect) {
                    self.pos += 1;
                    Ok(inner)
                } else {
                    Err(fault(ParseErrorKind::MissingCloser, self.pos))
                }
            },
            Err(e) => Err(e),
        }
    }

    /// Reads one expression from the cursor on, as far as operators bind more tightly
    /// than `rbp`.
    ///
    /// The tree and the cursor afterwards are what [`grammar::parse_expression`] gives
    /// at the cursor.
    pub fn parse_expression(&mut self, rbp: u8) -> (r: Result<Expr, ParseError>)
        ensures
            final(self).tokens() == old(self).tokens(),
            old(self).position() <= final(self).position(),
            agrees(
                r,
                final(self).position(),
                grammar::parse_expression(old(self).tokens(), old(self).position(), rbp),
            ),
        decreases grammar::remaining(old(self).tokens(), old(self).position()), 3int,
    {
        if self.pos >= self.tokens.len() {
            return Err(fault(ParseErrorKind::UnexpectedEnd, self.tokens.len()));
        }
        let ghost start = self.position();
        let ghost tokens = self.tokens();
        proof {
            grammar::lemma_prefix_advances(tokens, start);
        }
        let mut left = match self.parse_prefix() {
            Ok(tree) => tree,
            Err(e) => {
                return Err(e);
            },
        };
        loop
            invariant
                tokens == old(self).tokens(),
                start == old(self).position(),
                start <= self.position(),
                self.tokens() == tokens,
                start < self.position() <= tokens.len(),
                grammar::parse_expression(tokens, start, rbp) == grammar::parse_infixes(
                    tokens,
                    self.position(),
                    left@,
                    rbp,
                ),
            decreases tokens.len() - self.position(),
        {
            match self.current() {
                None => {
                    return Ok(left);
                },
                Some(token) => {
                    if self.get_binding_power(token) <= rbp {
                        return Ok(left);
                    }
                },
            }
            proof {
                grammar::lemma_infix_advances(tokens, self.position(), left@);
            }
            match self.parse_infix(left) {
                Ok(joined) => {
                    left = joined;
                },
                Err(e) => {
                    return Err(e);
                },
            }
        }
    }

    /// Reads what the next token starts.
    fn parse_prefix(&mut self) -> (r: Result<Expr, ParseError>)
        requires
            old(self).position() < old(self).tokens().len(),
        ensures
            final(self).tokens() == old(self).tokens(),
            old(self).position() <= final(self).position(),
            agrees(
                r,
                final(self).position(),
                grammar::parse_prefix(old(self).tokens(), old(self).position()),
            ),
        decreases grammar::remaining(old(self).tokens(), old(self).position()), 2int,
    {
        let at = self.pos;
        let token = self.advance();
        match token {
            Token::F64(val) => Ok(Expr::Float { val, typ: Type::Unknown }),
            Token::U64(val) => Ok(Expr::Integer { val, typ: Type::Unknown }),
            Token::Symbol(name) => Ok(Expr::Identifier { name, typ: Type::Unknown }),
            Token::Cache => Ok(Expr::Buffer { size: 0, anno: String::new() }),
            Token::Minus | Token::Star => match self.parse_expression(128) {
                Ok(arg) => Ok(Expr::Unary { op: token, arg: Box::new(arg) }),
                Err(e) => Err(e),
            },
            Token::LParen => self.parse_sub_and_check_pair(Token::RParen),
            Token::LBracket => match self.parse_sub_and_check_pair(Token::RBracket) {
                Ok(Expr::Tuple(items)) => Ok(Expr::List(items)),
                Ok(_) => Err(fault(ParseErrorKind::ListItems, at)),
                Err(e) => Err(e),
            },
            _ => Err(fault(ParseErrorKind::UnexpectedStart, at)),
        }
    }

    /// Applies the operator at the cursor to `left` and to what it reads behind itself.
    #[verifier::rlimit(50)]
    fn parse_infix(&mut self, left: Expr) -> (r: Result<Expr, ParseError>)
        requires
            old(self).position() < old(self).tokens().len(),
        ensures
            final(self).tokens() == old(self).tokens(),
            old(self).position() <= final(self).position(),
            agrees(
                r,
                final(self).position(),
                grammar::parse_infix(old(self).tokens(), old(self).position(), left@),
            ),
        decreases grammar::remaining(old(self).tokens(), old(self).position()), 1int,
    {
        let at = self.pos;
        let op = self.advance();
        let power = self.get_binding_power(&op);
        if is_binary_operator(&op) {
            return match self.parse_expression(power) {
                Ok(right) => Ok(Expr::Binary { left: Box::new(left), op, right: Box::new(right) }),
                Err(e) => Err(e),
            };
        }
        match op {
            Token::Equal => match left {
                Expr::Identifier { .. } => match self.parse_expression(power) {
                    Ok(val) => Ok(Expr::Assign { name: Box::new(left), val: Box::new(val) }),
                    Err(e) => Err(e),
                },
                _ => Err(fault(ParseErrorKind::AssignTarget, at)),
            },
            Token::FatArrow => match left {
                Expr::Identifier { .. } | Expr::Tuple(_) => match self.parse_expression(power) {
                    Ok(body) => Ok(Expr::Lambda { param: Box::new(left), body: Box::new(body) }),
                    Err(e) => Err(e),
                },
                _ => Err(fault(ParseErrorKind::LambdaParam, at)),
            },
            Token::Dot => self.parse_method_call(left),
            Token::Comma => match self.parse_expression(power) {
                Ok(right) => Ok(join_tuple(left, right)),
                Err(e) => Err(e),
            },
            Token::LParen => match self.parse_sub_and_check_pair(Token::RParen) {
                Ok(group) => match apply_group(left, group) {
                    Ok(joined) => Ok(joined),
                    Err(kind) => Err(fault(kind, at)),
                },
                Err(e) => Err(e),
            },
            Token::Colon => match self.parse_type_annotation() {
                Ok(typ) => match annotate(left, typ) {
                    Ok(joined) => Ok(joined),
                    Err(kind) => Err(fault(kind, at)),
                },
                Err(e) => Err(e),
            },
            Token::At => match self.parse_expression(power) {
                Ok(device) => match device {
                    Expr::Identifier { .. } => Ok(
                        Expr::Move { val: Box::new(left), device: Box::new(device) },
                    ),
                    _ => Err(fault(ParseErrorKind::MoveDevice, at)),
                },
                Err(e) => Err(e),
            },
            Token::Hash => match self.parse_expression(power) {
                Ok(val) => match left {
                    Expr::Identifier { name, .. } => Ok(
                        Expr::MetaDefine { name, val: Box::new(val) },
                    ),
                    _ => Err(fault(ParseErrorKind::MetaName, at)),
                },
                Err(e) => Err(e),
            },
            _ => Err(ParseError { kind: ParseErrorKind::UnexpectedInfix, at, left: Some(left) }),
        }
    }

    /// Reads the callee behind a `.`, which was just read, and the argument group
    /// behind the callee where there is one.
    fn parse_method_call(&mut self, left: Expr) -> (r: Result<Expr, ParseError>)
        requires
            0 < old(self).position() <= old(self).tokens().len(),
            old(self).tokens()[old(self).position() - 1] is Dot,
        ensures
            final(self).tokens() == old(self).tokens(),
            old(self).position() <= final(self).position(),
            agrees(
                r,
                final(self).position(),
                grammar::parse_infix(old(self).tokens(), old(self).position() - 1, left@),
            ),
        decreases grammar::remaining(old(self).tokens(), old(self).position() - 1), 0int,
    {
        let at = self.pos;
        if at >= self.tokens.len() {
            return Err(fault(ParseErrorKind::CalleeName, at));
        }
        match self.advance() {
            Token::Symbol(name) => {
                let ghost callee_name = name@;
                let callee = Expr::Identifier { name, typ: Type::Unknown };
                assert(callee@ == grammar::identifier(callee_name));
                if self.at_token(&Token::LParen) {
                    self.pos += 1;
                    match self.parse_sub_and_check_pair(Token::RParen) {
                        Ok(group) => {
                            let args = Expr::Tuple(method_arguments(left, group));
                            assert(args@ == ExprView::Tuple(
                                grammar::method_arguments(left@, group@),
                            ));
                            Ok(Expr::Call { callee: Box::new(callee), args: Box::new(args) })
                        },
                        Err(e) => Err(e),
                    }
                } else {
                    let mut items: Vec<Expr> = Vec::new();
                    items.push(left);
                    assert(expr_views(items@) =~= seq![left@]);
                    let args = Expr::Tuple(items);
                    assert(args@ == ExprView::Tuple(seq![left@]));
                    Ok(Expr::Call { callee: Box::new(callee), args: Box::new(args) })
                }
            },
            _ => Err(fault(ParseErrorKind::CalleeName, at)),
        }
    }
}

impl Parser for TokenParser {
    /// Reads the one expression that the tokens from the cursor on spell, all of them.
    ///
    /// The result is what [`grammar::parse_all`] gives at the cursor: the tree, the
    /// first fault of the expression, or the fault of trailing tokens behind it.
    fn parse_exprs(&mut self) -> (r: Result<Expr, ParseError>)
        ensures
            final(self).tokens() == old(self).tokens(),
            old(self).position() <= final(self).position(),
            match grammar::parse_all(old(self).tokens(), old(self).position()) {
                Ok(tree) => r is Ok && r.unwrap()@ == tree && final(self).position()
                    == old(self).tokens().len(),
                Err(failure) => r is Err && r.unwrap_err()@ == failure,
            },
    {
        match self.parse_expression(0) {
            Ok(tree) => {
                if self.pos != self.tokens.len() {
                    Err(fault(ParseErrorKind::TrailingTokens, self.pos))
                } else {
                    Ok(tree)
                }
            },
            Err(e) => Err(e),
        }
    }
}

} // verus!

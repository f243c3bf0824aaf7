//! The syntax tree.

use vstd::prelude::*;
use crate::token::{Decimal, DecimalView, Token, TokenView};
use crate::types::{Type, TypeView};

verus! {

/// A node of the syntax tree. Every node owns its children.
#[allow(inconsistent_fields)]
#[derive(Debug, PartialEq)]
pub enum Expr {
    /// An empty pair of brackets.
    Unit,
    /// A literal with a decimal point.
    Float { val: Decimal, typ: Type },
    /// An integer literal.
    Integer { val: u64, typ: Type },
    List(Vec<Expr>),
    Tuple(Vec<Expr>),
    /// A buffer of `size` units placed in `anno`, such as `local` or `global`.
    Buffer { size: u64, anno: String },
    Identifier { name: String, typ: Type },
    /// `name = val`; `name` is an identifier.
    Assign { name: Box<Expr>, val: Box<Expr> },
    /// `name # val`.
    MetaDefine { name: String, val: Box<Expr> },
    Unary { op: Token, arg: Box<Expr> },
    Binary { left: Box<Expr>, op: Token, right: Box<Expr> },
    Call { callee: Box<Expr>, args: Box<Expr> },
    /// `param => body`; `param` is an identifier or a tuple.
    Lambda { param: Box<Expr>, body: Box<Expr> },
    /// `val @ device`; `device` is an identifier.
    Move { val: Box<Expr>, device: Box<Expr> },
    Block(Vec<Expr>),
}

/// What an [`Expr`] is in contracts.
#[allow(inconsistent_fields)]
pub ghost enum ExprView {
    Unit,
    Float { val: DecimalView, typ: TypeView },
    Integer { val: u64, typ: TypeView },
    List(Seq<ExprView>),
    Tuple(Seq<ExprView>),
    Buffer { size: u64, anno: Seq<char> },
    Identifier { name: Seq<char>, typ: TypeView },
    Assign { name: Box<ExprView>, val: Box<ExprView> },
    MetaDefine { name: Seq<char>, val: Box<ExprView> },
    Unary { op: TokenView, arg: Box<ExprView> },
    Binary { left: Box<ExprView>, op: TokenView, right: Box<ExprView> },
    Call { callee: Box<ExprView>, args: Box<ExprView> },
    Lambda { param: Box<ExprView>, body: Box<ExprView> },
    Move { val: Box<ExprView>, device: Box<ExprView> },
    Block(Seq<ExprView>),
}

/// The views of a run of nodes, in order.
pub open spec fn expr_views(items: Seq<Expr>) -> Seq<ExprView>
    decreases items,
{
    Seq::new(
        items.len(),
        |i: int|
            if 0 <= i < items.len() {
                items[i].model()
            } else {
                ExprView::Unit
            },
    )
}

impl Expr {
    /// The node as a mathematical value; `@` gives the same.
    pub open spec fn model(&self) -> ExprView
        decreases self,
    {
        match self {
            Expr::Unit => ExprView::Unit,
            Expr::Float { val, typ } => ExprView::Float { val: val@, typ: typ@ },
            Expr::Integer { val, typ } => ExprView::Integer { val: *val, typ: typ@ },
            Expr::List(items) => ExprView::List(expr_views(items@)),
            Expr::Tuple(items) => ExprView::Tuple(expr_views(items@)),
            Expr::Buffer { size, anno } => ExprView::Buffer { size: *size, anno: anno@ },
            Expr::Identifier { name, typ } => ExprView::Identifier { name: name@, typ: typ@ },
            Expr::Assign { name, val } => ExprView::Assign {
                name: Box::new(name.model()),
                val: Box::new(val.model()),
            },
            Expr::MetaDefine { name, val } => ExprView::MetaDefine {
                name: name@,
                val: Box::new(val.model()),
            },
            Expr::Unary { op, arg } => ExprView::Unary { op: op@, arg: Box::new(arg.model()) },
            Expr::Binary { left, op, right } => ExprView::Binary {
                left: Box::new(left.model()),
                op: op@,
                right: Box::new(right.model()),
            },
            Expr::Call { callee, args } => ExprView::Call {
                callee: Box::new(callee.model()),
                args: Box::new(args.model()),
            },
            Expr::Lambda { param, body } => ExprView::Lambda {
                param: Box::new(param.model()),
                body: Box::new(body.model()),
            },
            Expr::Move { val, device } => ExprView::Move {
                val: Box::new(val.model()),
                device: Box::new(device.model()),
            },
            Expr::Block(items) => ExprView::Block(expr_views(items@)),
        }
    }
}

impl View for Expr {
    type V = ExprView;

    open spec fn view(&self) -> ExprView {
        self.model()
    }
}

} // verus!

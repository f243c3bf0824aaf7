//! The types that an annotation can name.

use vstd::prelude::*;
use crate::text::{decimal_text, push_decimal, same_text};

verus! {

/// The shape of a tensor: unconstrained, or its extents in order.
#[derive(Debug, PartialEq)]
pub enum TensorShapeType {
    /// Any rank and any extents.
    Any,
    /// One extent per dimension; never empty where an annotation was read.
    Shape(Vec<u64>),
}

/// What a [`TensorShapeType`] is in contracts.
pub ghost enum ShapeView {
    Any,
    Shape(Seq<u64>),
}

impl View for TensorShapeType {
    type V = ShapeView;

    open spec fn view(&self) -> ShapeView {
        match self {
            TensorShapeType::Any => ShapeView::Any,
            TensorShapeType::Shape(extents) => ShapeView::Shape(extents@),
        }
    }
}

/// A type of the language.
#[derive(Debug, PartialEq)]
pub enum Type {
    Any,
    Unit,
    F32,
    F64,
    I32,
    U32,
    I64,
    U64,
    Char,
    Bool,
    List(Box<Type>),
    Tuple(Vec<Type>),
    Tensor { dtype: Box<Type>, shape: TensorShapeType },
    Function { params: Vec<Type>, ret: Box<Type> },
    /// A type from outside the language, by its name.
    Ext(String),
    /// No annotation was seen yet.
    Unknown,
}

/// What a [`Type`] is in contracts.
pub ghost enum TypeView {
    Any,
    Unit,
    F32,
    F64,
    I32,
    U32,
    I64,
    U64,
    Char,
    Bool,
    List(Box<TypeView>),
    Tuple(Seq<TypeView>),
    Tensor { dtype: Box<TypeView>, shape: ShapeView },
    Function { params: Seq<TypeView>, ret: Box<TypeView> },
    Ext(Seq<char>),
    Unknown,
}

/// The views of a run of types, in order.
pub open spec fn type_views(items: Seq<Type>) -> Seq<TypeView>
    decreases items,
{
    Seq::new(
        items.len(),
        |i: int|
            if 0 <= i < items.len() {
                items[i].model()
            } else {
                TypeView::Unknown
            },
    )
}

impl View for Type {
    type V = TypeView;

    open spec fn view(&self) -> TypeView {
        self.model()
    }
}

impl Type {
    /// The type as a mathematical value; `@` gives the same.
    pub open spec fn model(&self) -> TypeView
        decreases self,
    {
        match self {
            Type::Any => TypeView::Any,
            Type::Unit => TypeView::Unit,
            Type::F32 => TypeView::F32,
            Type::F64 => TypeView::F64,
            Type::I32 => TypeView::I32,
            Type::U32 => TypeView::U32,
            Type::I64 => TypeView::I64,
            Type::U64 => TypeView::U64,
            Type::Char => TypeView::Char,
            Type::Bool => TypeView::Bool,
            Type::List(item) => TypeView::List(Box::new(item.model())),
            Type::Tuple(items) => TypeView::Tuple(type_views(items@)),
            Type::Tensor { dtype, shape } => TypeView::Tensor {
                dtype: Box::new(dtype.model()),
                shape: shape@,
            },
            Type::Function { params, ret } => TypeView::Function {
                params: type_views(params@),
                ret: Box::new(ret.model()),
            },
            Type::Ext(name) => TypeView::Ext(name@),
            Type::Unknown => TypeView::Unknown,
        }
    }
}

/// The names that introduce a compound type and name no type by themselves.
pub open spec fn is_reserved_type_name(name: Seq<char>) -> bool {
    name == "tensor"@ || name == "list"@ || name == "tuple"@
}

/// The type that a name stands for: one of the fixed scalar names, or else a type from
/// outside the language that carries the name as it is.
pub open spec fn named_type(name: Seq<char>) -> TypeView {
    if name == "any"@ {
        TypeView::Any
    } else if name == "unit"@ {
        TypeView::Unit
    } else if name == "f32"@ {
        TypeView::F32
    } else if name == "f64"@ {
        TypeView::F64
    } else if name == "i32"@ {
        TypeView::I32
    } else if name == "u32"@ {
        TypeView::U32
    } else if name == "i64"@ {
        TypeView::I64
    } else if name == "u64"@ {
        TypeView::U64
    } else if name == "char"@ {
        TypeView::Char
    } else if name == "bool"@ {
        TypeView::Bool
    } else {
        TypeView::Ext(name)
    }
}

/// The first `n` extents written in base ten, with `, ` between them.
pub open spec fn extents_text(extents: Seq<u64>, n: int) -> Seq<char>
    decreases n,
{
    if n <= 0 {
        Seq::empty()
    } else if n == 1 {
        decimal_text(extents[0] as nat)
    } else {
        extents_text(extents, n - 1) + ", "@ + decimal_text(extents[n - 1] as nat)
    }
}

/// A shape as text: `Any`, or `Shape([3, 4])` with its extents.
pub open spec fn shape_text(shape: ShapeView) -> Seq<char> {
    match shape {
        ShapeView::Any => "Any"@,
        ShapeView::Shape(extents) => "Shape(["@ + extents_text(extents, extents.len() as int)
            + "])"@,
    }
}

/// The types that have a text: all but tuples and functions, also inside a list or a
/// tensor.
pub open spec fn has_text(t: TypeView) -> bool
    decreases t,
{
    match t {
        TypeView::Tuple(_) | TypeView::Function { .. } => false,
        TypeView::List(item) => has_text(*item),
        TypeView::Tensor { dtype, .. } => has_text(*dtype),
        _ => true,
    }
}

/// A type as text: the name of a scalar, `List<..>` around the item of a list,
/// `tensor<.., ..>` around the element type and the shape of a tensor, the name of a
/// type from outside, and `?` where no annotation was seen.
pub open spec fn type_text(t: TypeView) -> Seq<char>
    decreases t,
{
    match t {
        TypeView::Any => "any"@,
        TypeView::Unit => "unit"@,
        TypeView::F32 => "f32"@,
        TypeView::F64 => "f64"@,
        TypeView::I32 => "i32"@,
        TypeView::U32 => "u32"@,
        TypeView::I64 => "i64"@,
        TypeView::U64 => "u64"@,
        TypeView::Char => "char"@,
        TypeView::Bool => "bool"@,
        TypeView::List(item) => "List<"@ + type_text(*item) + ">"@,
        TypeView::Tensor { dtype, shape } => "tensor<"@ + type_text(*dtype) + ", "@ + shape_text(
            shape,
        ) + ">"@,
        TypeView::Ext(name) => name,
        TypeView::Unknown => "?"@,
        TypeView::Tuple(_) | TypeView::Function { .. } => Seq::empty(),
    }
}

impl Clone for TensorShapeType {
    fn clone(&self) -> (r: Self)
        ensures
            r@ == self@,
    {
        match self {
            TensorShapeType::Any => TensorShapeType::Any,
            TensorShapeType::Shape(extents) => TensorShapeType::Shape(extents.clone()),
        }
    }
}

/// Copies of the types of a run, in order.
fn clone_types(items: &Vec<Type>) -> (r: Vec<Type>)
    ensures
        type_views(r@) == type_views(items@),
    decreases items,
{
    let mut copies: Vec<Type> = Vec::new();
    let mut i: usize = 0;
    while i < items.len()
        invariant
            i <= items.len(),
            copies.len() == i,
            forall|k: int| 0 <= k < i ==> (#[trigger] copies@[k])@ == items@[k]@,
        decreases items.len() - i,
    {
        let copy = items[i].clone();
        copies.push(copy);
        i += 1;
    }
    assert(type_views(copies@) =~= type_views(items@));
    copies
}

impl Clone for Type {
    fn clone(&self) -> (r: Self)
        ensures
            r@ == self@,
        decreases self,
    {
        match self {
            Type::Any => Type::Any,
            Type::Unit => Type::Unit,
            Type::F32 => Type::F32,
            Type::F64 => Type::F64,
            Type::I32 => Type::I32,
            Type::U32 => Type::U32,
            Type::I64 => Type::I64,
            Type::U64 => Type::U64,
            Type::Char => Type::Char,
            Type::Bool => Type::Bool,
            Type::List(item) => {
                let inner: Type = (**item).clone();
                Type::List(Box::new(inner))
            },
            Type::Tuple(items) => Type::Tuple(clone_types(items)),
            Type::Tensor { dtype, shape } => {
                let inner: Type = (**dtype).clone();
                Type::Tensor { dtype: Box::new(inner), shape: shape.clone() }
            },
            Type::Function { params, ret } => {
                let inner: Type = (**ret).clone();
                Type::Function { params: clone_types(params), ret: Box::new(inner) }
            },
            Type::Ext(name) => Type::Ext(name.clone()),
            Type::Unknown => Type::Unknown,
        }
    }
}

impl TensorShapeType {
    /// Appends the shape as text to `out`.
    fn write_text(&self, out: &mut String)
        ensures
            final(out)@ == old(out)@ + shape_text(self@),
    {
        match self {
            TensorShapeType::Any => {
                out.append("Any");
            },
            TensorShapeType::Shape(extents) => {
                out.append("Shape([");
                let ghost start = out@;
                let mut i: usize = 0;
                while i < extents.len()
                    invariant
                        i <= extents.len(),
                        out@ == start + extents_text(extents@, i as int),
                    decreases extents.len() - i,
                {
                    if i > 0 {
                        out.append(", ");
                    }
                    push_decimal(out, extents[i]);
                    i += 1;
                    assert(out@ =~= start + extents_text(extents@, i as int));
                }
                out.append("])");
                assert(out@ =~= old(out)@ + shape_text(self@));
            },
        }
    }
}

impl Type {
    /// Whether the type has a text: whether it holds no tuple and no function.
    pub fn is_printable(&self) -> (b: bool)
        ensures
            b == has_text(self@),
        decreases self,
    {
        match self {
            Type::Tuple(_) | Type::Function { .. } => false,
            Type::List(item) => item.is_printable(),
            Type::Tensor { dtype, .. } => dtype.is_printable(),
            _ => true,
        }
    }

    /// The type as text.
    pub fn to_string(&self) -> (text: String)
        requires
            has_text(self@),
        ensures
            text@ == type_text(self@),
        decreases self,
    {
        match self {
            Type::Any => String::from_str("any"),
            Type::Unit => String::from_str("unit"),
            Type::F32 => String::from_str("f32"),
            Type::F64 => String::from_str("f64"),
            Type::I32 => String::from_str("i32"),
            Type::U32 => String::from_str("u32"),
            Type::I64 => String::from_str("i64"),
            Type::U64 => String::from_str("u64"),
            Type::Char => String::from_str("char"),
            Type::Bool => String::from_str("bool"),
            Type::List(item) => {
                let mut text = String::from_str("List<");
                let inner = item.to_string();
                text.append(inner.as_str());
                text.append(">");
                text
            },
            Type::Tensor { dtype, shape } => {
                let mut text = String::from_str("tensor<");
                let inner = dtype.to_string();
                text.append(inner.as_str());
                text.append(", ");
                shape.write_text(&mut text);
                text.append(">");
                text
            },
            Type::Ext(name) => name.clone(),
            Type::Unknown => String::from_str("?"),
            Type::Tuple(_) | Type::Function { .. } => String::new(),
        }
    }

    /// Whether `s` is one of `tensor`, `list` and `tuple`, which name no type alone.
    pub fn is_reserved_name(s: &str) -> (b: bool)
        ensures
            b == is_reserved_type_name(s@),
    {
        same_text(s, "tensor") || same_text(s, "list") || same_text(s, "tuple")
    }

    /// The type that the name `s` stands for.
    pub fn from_str(s: &str) -> (t: Self)
        requires
            !is_reserved_type_name(s@),
        ensures
            t@ == named_type(s@),
    {
        if same_text(s, "any") {
            Type::Any
        } else if same_text(s, "unit") {
            Type::Unit
        } else if same_text(s, "f32") {
            Type::F32
        } else if same_text(s, "f64") {
            Type::F64
        } else if same_text(s, "i32") {
            Type::I32
        } else if same_text(s, "u32") {
            Type::U32
        } else if same_text(s, "i64") {
            Type::I64
        } else if same_text(s, "u64") {
            Type::U64
        } else if same_text(s, "char") {
            Type::Char
        } else if same_text(s, "bool") {
            Type::Bool
        } else {
            Type::Ext(s.to_owned())
        }
    }
}

} // verus!

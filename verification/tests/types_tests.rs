use lasmiao::{TensorShapeType, Type};

#[test]
fn scalar_names() {
    assert_eq!(Type::from_str("any"), Type::Any);
    assert_eq!(Type::from_str("unit"), Type::Unit);
    assert_eq!(Type::from_str("f32"), Type::F32);
    assert_eq!(Type::from_str("f64"), Type::F64);
    assert_eq!(Type::from_str("i32"), Type::I32);
    assert_eq!(Type::from_str("u32"), Type::U32);
    assert_eq!(Type::from_str("i64"), Type::I64);
    assert_eq!(Type::from_str("u64"), Type::U64);
    assert_eq!(Type::from_str("char"), Type::Char);
    assert_eq!(Type::from_str("bool"), Type::Bool);
}

#[test]
fn other_names_are_kept_as_they_are() {
    assert_eq!(Type::from_str("Matrix"), Type::Ext("Matrix".to_string()));
    assert_eq!(Type::from_str("F32"), Type::Ext("F32".to_string()));
    assert_eq!(Type::from_str("f3"), Type::Ext("f3".to_string()));
    assert_eq!(Type::from_str("f322"), Type::Ext("f322".to_string()));
    assert_eq!(Type::from_str(""), Type::Ext(String::new()));
    assert_eq!(Type::from_str("?"), Type::Ext("?".to_string()));
}

#[test]
fn reserved_names() {
    assert!(Type::is_reserved_name("tensor"));
    assert!(Type::is_reserved_name("list"));
    assert!(Type::is_reserved_name("tuple"));
    assert!(!Type::is_reserved_name("Tensor"));
    assert!(!Type::is_reserved_name("lists"));
    assert!(!Type::is_reserved_name("f32"));
    assert!(!Type::is_reserved_name(""));
}

fn tensor(dtype: Type, shape: TensorShapeType) -> Type {
    Type::Tensor { dtype: Box::new(dtype), shape }
}

#[test]
fn scalar_types_as_text() {
    assert_eq!(Type::Any.to_string(), "any");
    assert_eq!(Type::Unit.to_string(), "unit");
    assert_eq!(Type::F32.to_string(), "f32");
    assert_eq!(Type::F64.to_string(), "f64");
    assert_eq!(Type::I32.to_string(), "i32");
    assert_eq!(Type::U32.to_string(), "u32");
    assert_eq!(Type::I64.to_string(), "i64");
    assert_eq!(Type::U64.to_string(), "u64");
    assert_eq!(Type::Char.to_string(), "char");
    assert_eq!(Type::Bool.to_string(), "bool");
    assert_eq!(Type::Unknown.to_string(), "?");
    assert_eq!(Type::Ext("Matrix".to_string()).to_string(), "Matrix");
}

#[test]
fn compound_types_as_text() {
    assert_eq!(Type::List(Box::new(Type::F32)).to_string(), "List<f32>");
    assert_eq!(
        Type::List(Box::new(Type::List(Box::new(Type::Unknown)))).to_string(),
        "List<List<?>>"
    );
    assert_eq!(tensor(Type::F32, TensorShapeType::Any).to_string(), "tensor<f32, Any>");
    assert_eq!(
        tensor(Type::F32, TensorShapeType::Shape(vec![3, 4])).to_string(),
        "tensor<f32, Shape([3, 4])>"
    );
    assert_eq!(
        tensor(Type::Unknown, TensorShapeType::Shape(vec![7])).to_string(),
        "tensor<?, Shape([7])>"
    );
    assert_eq!(
        tensor(Type::U64, TensorShapeType::Shape(vec![])).to_string(),
        "tensor<u64, Shape([])>"
    );
    assert_eq!(
        tensor(Type::U64, TensorShapeType::Shape(vec![0, 10, 1024, u64::MAX])).to_string(),
        "tensor<u64, Shape([0, 10, 1024, 18446744073709551615])>"
    );
}

#[test]
fn tuples_and_functions_have_no_text() {
    assert!(Type::F32.is_printable());
    assert!(tensor(Type::List(Box::new(Type::Any)), TensorShapeType::Any).is_printable());
    assert!(!Type::Tuple(vec![]).is_printable());
    assert!(!Type::Function { params: vec![Type::F32], ret: Box::new(Type::F32) }.is_printable());
    assert!(!Type::List(Box::new(Type::Tuple(vec![Type::F32]))).is_printable());
    assert!(!tensor(Type::Tuple(vec![]), TensorShapeType::Any).is_printable());
}

#[test]
fn a_clone_is_the_same_type() {
    let types = vec![
        Type::Any,
        Type::Unknown,
        Type::Ext("Q".to_string()),
        Type::List(Box::new(Type::I64)),
        Type::Tuple(vec![Type::F32, Type::Tuple(vec![Type::Bool, Type::Char])]),
        tensor(Type::F64, TensorShapeType::Shape(vec![1, 2, 3])),
        Type::Function {
            params: vec![Type::U32, Type::List(Box::new(Type::Unit))],
            ret: Box::new(tensor(Type::I32, TensorShapeType::Any)),
        },
    ];
    for t in &types {
        assert_eq!(&t.clone(), t);
    }
    assert_eq!(TensorShapeType::Shape(vec![4, 5]).clone(), TensorShapeType::Shape(vec![4, 5]));
}

use lasmiao::{
    Decimal, Expr, LasmiaoLexer, Lexer, ParseError, ParseErrorKind, Parser, TensorShapeType, Token,
    TokenParser, Type,
};

fn parse(input: &str) -> Result<Expr, ParseError> {
    let tokens = LasmiaoLexer::make_tokens(input).expect("the text has a token sequence");
    TokenParser::new(tokens).parse_exprs()
}

fn tree(input: &str) -> Expr {
    parse(input).expect("the text is an expression")
}

fn fails(input: &str, kind: ParseErrorKind, at: usize) {
    assert_eq!(parse(input), Err(ParseError { kind, at, left: None }));
}

fn num(val: u64) -> Expr {
    Expr::Integer { val, typ: Type::Unknown }
}

fn id(name: &str) -> Expr {
    Expr::Identifier { name: name.to_string(), typ: Type::Unknown }
}

fn typed(name: &str, typ: Type) -> Expr {
    Expr::Identifier { name: name.to_string(), typ }
}

fn bin(left: Expr, op: Token, right: Expr) -> Expr {
    Expr::Binary { left: Box::new(left), op, right: Box::new(right) }
}

fn call(callee: Expr, args: Expr) -> Expr {
    Expr::Call { callee: Box::new(callee), args: Box::new(args) }
}

fn tensor(dtype: Type, shape: TensorShapeType) -> Type {
    Type::Tensor { dtype: Box::new(dtype), shape }
}

#[test]
fn literals_and_identifiers() {
    assert_eq!(tree("42"), num(42));
    assert_eq!(tree("x"), id("x"));
    assert_eq!(
        tree("1.5"),
        Expr::Float { val: Decimal { whole: 1, frac: vec![5] }, typ: Type::Unknown }
    );
    assert_eq!(tree("$"), Expr::Buffer { size: 0, anno: String::new() });
}

#[test]
fn minus_groups_to_the_left() {
    assert_eq!(
        tree("1 - 2 - 3"),
        bin(bin(num(1), Token::Minus, num(2)), Token::Minus, num(3))
    );
}

#[test]
fn operators_of_one_power_group_to_the_left() {
    assert_eq!(
        tree("a * b / c % d"),
        bin(bin(bin(id("a"), Token::Star, id("b")), Token::Slash, id("c")), Token::Mod, id("d"))
    );
    assert_eq!(
        tree("a < b == c"),
        bin(bin(id("a"), Token::LessThan, id("b")), Token::DoubleEqual, id("c"))
    );
}

#[test]
fn star_binds_tighter_than_plus() {
    assert_eq!(tree("1 + 2 * 3"), bin(num(1), Token::Plus, bin(num(2), Token::Star, num(3))));
    assert_eq!(tree("1 * 2 + 3"), bin(bin(num(1), Token::Star, num(2)), Token::Plus, num(3)));
}

#[test]
fn comparison_binds_looser_than_arithmetic() {
    assert_eq!(
        tree("a + 1 >= b * 2"),
        bin(
            bin(id("a"), Token::Plus, num(1)),
            Token::GreatThanEq,
            bin(id("b"), Token::Star, num(2))
        )
    );
    assert_eq!(tree("a != b"), bin(id("a"), Token::NotEqual, id("b")));
    assert_eq!(tree("a <= b"), bin(id("a"), Token::LessThanEq, id("b")));
    assert_eq!(tree("a > b"), bin(id("a"), Token::GreatThan, id("b")));
}

#[test]
fn parentheses_group() {
    assert_eq!(tree("(1 + 2) * 3"), bin(bin(num(1), Token::Plus, num(2)), Token::Star, num(3)));
    assert_eq!(tree("((x))"), id("x"));
    assert_eq!(tree("()"), Expr::Unit);
    assert_eq!(tree("(())"), Expr::Unit);
}

#[test]
fn unary_operators_bind_before_binary_ones() {
    assert_eq!(
        tree("-1 + 2"),
        bin(Expr::Unary { op: Token::Minus, arg: Box::new(num(1)) }, Token::Plus, num(2))
    );
    assert_eq!(
        tree("-a * b"),
        bin(Expr::Unary { op: Token::Minus, arg: Box::new(id("a")) }, Token::Star, id("b"))
    );
    assert_eq!(
        tree("*-x"),
        Expr::Unary {
            op: Token::Star,
            arg: Box::new(Expr::Unary { op: Token::Minus, arg: Box::new(id("x")) })
        }
    );
    assert_eq!(
        tree("-(1 + 2)"),
        Expr::Unary { op: Token::Minus, arg: Box::new(bin(num(1), Token::Plus, num(2))) }
    );
    assert_eq!(
        tree("1 - -2"),
        bin(num(1), Token::Minus, Expr::Unary { op: Token::Minus, arg: Box::new(num(2)) })
    );
}

#[test]
fn a_unary_operand_takes_no_annotation() {
    // the operand of a unary operator ends before every infix operator, `:` included
    fails("-x:f32", ParseErrorKind::AnnotationTarget, 2);
}

#[test]
fn tuples() {
    assert_eq!(tree("1, 2"), Expr::Tuple(vec![num(1), num(2)]));
    assert_eq!(tree("1, 2, 3"), Expr::Tuple(vec![num(1), num(2), num(3)]));
    assert_eq!(tree("(a, b), (c, d)"), Expr::Tuple(vec![id("a"), id("b"), id("c"), id("d")]));
    assert_eq!(tree("(a, b), c"), Expr::Tuple(vec![id("a"), id("b"), id("c")]));
    assert_eq!(
        tree("a, (b, c)"),
        Expr::Tuple(vec![id("a"), Expr::Tuple(vec![id("b"), id("c")])])
    );
    assert_eq!(
        tree("a + 1, b"),
        Expr::Tuple(vec![bin(id("a"), Token::Plus, num(1)), id("b")])
    );
}

#[test]
fn lists() {
    assert_eq!(tree("[1, 2, 3]"), Expr::List(vec![num(1), num(2), num(3)]));
    assert_eq!(
        tree("[[1, 2], [3, 4]]"),
        Expr::List(vec![Expr::List(vec![num(1), num(2)]), Expr::List(vec![num(3), num(4)])])
    );
    fails("[1]", ParseErrorKind::ListItems, 0);
    fails("[]", ParseErrorKind::ListItems, 0);
    fails("x = [a + b]", ParseErrorKind::ListItems, 2);
}

#[test]
fn assignment() {
    assert_eq!(
        tree("x = 1 + 2"),
        Expr::Assign { name: Box::new(id("x")), val: Box::new(bin(num(1), Token::Plus, num(2))) }
    );
    assert_eq!(
        tree("x:f32 = 1"),
        Expr::Assign { name: Box::new(typed("x", Type::F32)), val: Box::new(num(1)) }
    );
    fails("1 = 2", ParseErrorKind::AssignTarget, 1);
    fails("(a, b) = 2", ParseErrorKind::AssignTarget, 5);
}

#[test]
fn chained_assignment_does_not_group_to_the_right() {
    // the right operand of `=` ends before the next `=`, and an assignment is no target
    fails("a = b = c", ParseErrorKind::AssignTarget, 3);
}

#[test]
fn lambda() {
    assert_eq!(
        tree("x => x + 1"),
        Expr::Lambda { param: Box::new(id("x")), body: Box::new(bin(id("x"), Token::Plus, num(1))) }
    );
    assert_eq!(
        tree("(x, y) => x * y"),
        Expr::Lambda {
            param: Box::new(Expr::Tuple(vec![id("x"), id("y")])),
            body: Box::new(bin(id("x"), Token::Star, id("y")))
        }
    );
    assert_eq!(
        tree("(x => x + 1)(2)"),
        call(
            Expr::Lambda {
                param: Box::new(id("x")),
                body: Box::new(bin(id("x"), Token::Plus, num(1)))
            },
            num(2)
        )
    );
    fails("1 => 2", ParseErrorKind::LambdaParam, 1);
    fails("() => 2", ParseErrorKind::LambdaParam, 2);
}

#[test]
fn assignment_of_a_lambda_stops_before_the_arrow() {
    // `=>` binds looser than `=`, so `f = x` is complete when `=>` comes
    fails("f = x => x", ParseErrorKind::LambdaParam, 3);
}

#[test]
fn calls() {
    assert_eq!(tree("sin(pi)"), call(id("sin"), id("pi")));
    assert_eq!(tree("f()"), call(id("f"), Expr::Unit));
    assert_eq!(tree("f(1, 2)"), call(id("f"), Expr::Tuple(vec![num(1), num(2)])));
    assert_eq!(
        tree("f(x) + 1"),
        bin(call(id("f"), id("x")), Token::Plus, num(1))
    );
    assert_eq!(
        tree("1 + f(x)"),
        bin(num(1), Token::Plus, call(id("f"), id("x")))
    );
    fails("1(2)", ParseErrorKind::CallTarget, 1);
    fails("f(1)(2)", ParseErrorKind::CallTarget, 4);
    fails("(a + b)(c)", ParseErrorKind::CallTarget, 5);
}

#[test]
fn method_calls() {
    assert_eq!(tree("a.f"), call(id("f"), Expr::Tuple(vec![id("a")])));
    assert_eq!(tree("a.f()"), call(id("f"), Expr::Tuple(vec![id("a")])));
    assert_eq!(tree("a.f(b)"), call(id("f"), Expr::Tuple(vec![id("a"), id("b")])));
    assert_eq!(
        tree("a.f(b, c)"),
        call(id("f"), Expr::Tuple(vec![id("a"), id("b"), id("c")]))
    );
    assert_eq!(tree("1 .f(2)"), call(id("f"), Expr::Tuple(vec![num(1), num(2)])));
    // `1.` is a literal with a point, so no `.` is left for a call
    fails("1.f(2)", ParseErrorKind::TrailingTokens, 1);
    assert_eq!(
        tree("x + a.f(b)"),
        bin(id("x"), Token::Plus, call(id("f"), Expr::Tuple(vec![id("a"), id("b")])))
    );
    assert_eq!(
        tree("a.f.g"),
        call(id("g"), Expr::Tuple(vec![call(id("f"), Expr::Tuple(vec![id("a")]))]))
    );
    fails("a.1", ParseErrorKind::CalleeName, 2);
    fails("a.", ParseErrorKind::CalleeName, 2);
    fails("a.(b)", ParseErrorKind::CalleeName, 2);
    let open = LasmiaoLexer::make_tokens("a.f(b)").unwrap().into_iter().take(5).collect();
    assert_eq!(
        TokenParser::new(open).parse_exprs(),
        Err(ParseError { kind: ParseErrorKind::MissingCloser, at: 5, left: None })
    );
}

#[test]
fn buffer_literal() {
    assert_eq!(
        tree("$(1024, local)"),
        Expr::Buffer { size: 1024, anno: "local".to_string() }
    );
    assert_eq!(
        tree("x = $(0x10, global)"),
        Expr::Assign {
            name: Box::new(id("x")),
            val: Box::new(Expr::Buffer { size: 16, anno: "global".to_string() })
        }
    );
    assert_eq!(
        tree("$(8:u64, local:any)"),
        Expr::Buffer { size: 8, anno: "local".to_string() }
    );
}

#[test]
fn buffer_literal_with_wrong_arguments_fails() {
    fails("$(1024)", ParseErrorKind::BufferArgs, 1);
    fails("$()", ParseErrorKind::BufferArgs, 1);
    fails("$(1, 2, 3)", ParseErrorKind::BufferArgs, 1);
    fails("$(local, 1024)", ParseErrorKind::BufferArgs, 1);
    fails("$(1024, 5)", ParseErrorKind::BufferArgs, 1);
    fails("$(1.5, local)", ParseErrorKind::BufferArgs, 1);
}

#[test]
fn scalar_annotations() {
    assert_eq!(tree("x:any"), typed("x", Type::Any));
    assert_eq!(tree("x:unit"), typed("x", Type::Unit));
    assert_eq!(tree("x:f32"), typed("x", Type::F32));
    assert_eq!(tree("x:f64"), typed("x", Type::F64));
    assert_eq!(tree("x:i32"), typed("x", Type::I32));
    assert_eq!(tree("x:u32"), typed("x", Type::U32));
    assert_eq!(tree("x:i64"), typed("x", Type::I64));
    assert_eq!(tree("x:u64"), typed("x", Type::U64));
    assert_eq!(tree("x:char"), typed("x", Type::Char));
    assert_eq!(tree("x:bool"), typed("x", Type::Bool));
    assert_eq!(tree("x:Matrix"), typed("x", Type::Ext("Matrix".to_string())));
    assert_eq!(tree("1:u32"), Expr::Integer { val: 1, typ: Type::U32 });
    assert_eq!(
        tree("1.5:f32"),
        Expr::Float { val: Decimal { whole: 1, frac: vec![5] }, typ: Type::F32 }
    );
}

#[test]
fn an_annotation_replaces_the_one_before() {
    assert_eq!(tree("x:f32:i64"), typed("x", Type::I64));
}

#[test]
fn annotation_binds_tighter_than_everything() {
    assert_eq!(
        tree("x:f32 + y:f64"),
        bin(typed("x", Type::F32), Token::Plus, typed("y", Type::F64))
    );
    assert_eq!(
        tree("(a:i32, b:u32) => a"),
        Expr::Lambda {
            param: Box::new(Expr::Tuple(vec![typed("a", Type::I32), typed("b", Type::U32)])),
            body: Box::new(id("a"))
        }
    );
}

#[test]
fn annotation_on_other_nodes_fails() {
    fails("(a + b):f32", ParseErrorKind::AnnotationTarget, 5);
    fails("():f32", ParseErrorKind::AnnotationTarget, 2);
    fails("f(x):f32", ParseErrorKind::AnnotationTarget, 4);
    fails("x:1", ParseErrorKind::TypeName, 2);
    fails("x:", ParseErrorKind::TypeName, 2);
    fails("x:(f32)", ParseErrorKind::TypeName, 2);
}

#[test]
fn tensor_annotation() {
    assert_eq!(
        tree("x:tensor(3,4,f32)"),
        typed("x", tensor(Type::F32, TensorShapeType::Shape(vec![3, 4])))
    );
    assert_eq!(tree("x:tensor()"), typed("x", tensor(Type::Unknown, TensorShapeType::Any)));
}

#[test]
fn tensor_annotation_arguments() {
    assert_eq!(tree("x:tensor(f32)"), typed("x", tensor(Type::F32, TensorShapeType::Any)));
    assert_eq!(
        tree("x:tensor(3)"),
        typed("x", tensor(Type::Unknown, TensorShapeType::Shape(vec![3])))
    );
    assert_eq!(
        tree("x:tensor(f32, 3, 4)"),
        typed("x", tensor(Type::F32, TensorShapeType::Shape(vec![3, 4])))
    );
    assert_eq!(
        tree("x:tensor(2, u64, 0x10)"),
        typed("x", tensor(Type::U64, TensorShapeType::Shape(vec![2, 16])))
    );
    assert_eq!(
        tree("x:tensor(Quat, 1)"),
        typed("x", tensor(Type::Ext("Quat".to_string()), TensorShapeType::Shape(vec![1])))
    );
    assert_eq!(
        tree("x:tensor(any, 7)"),
        typed("x", tensor(Type::Any, TensorShapeType::Shape(vec![7])))
    );
}

#[test]
fn a_second_element_type_stops_the_reading_only_if_it_is_any() {
    assert_eq!(
        tree("x:tensor(3, f32, any, 4)"),
        typed("x", tensor(Type::F32, TensorShapeType::Shape(vec![3])))
    );
    assert_eq!(
        tree("x:tensor(f32, any, f64, y + 1)"),
        typed("x", tensor(Type::F32, TensorShapeType::Any))
    );
    fails("x:tensor(f32, f64)", ParseErrorKind::TypeArguments, 2);
    fails("x:tensor(any, f32)", ParseErrorKind::TypeArguments, 2);
}

#[test]
fn malformed_tensor_annotation_fails() {
    fails("x:tensor", ParseErrorKind::TypeArguments, 3);
    fails("x:tensor + 1", ParseErrorKind::TypeArguments, 3);
    fails("x:tensor(3, 1.5)", ParseErrorKind::TypeArguments, 2);
    fails("x:tensor(a + b)", ParseErrorKind::TypeArguments, 2);
    fails("x:tensor(3, list)", ParseErrorKind::TypeName, 2);
    fails("x:tensor(tensor, 3)", ParseErrorKind::TypeName, 2);
    fails("x:tensor(tuple)", ParseErrorKind::TypeName, 2);
}

#[test]
fn list_annotation() {
    assert_eq!(tree("x:list(f32)"), typed("x", Type::List(Box::new(Type::F32))));
    assert_eq!(
        tree("x:list(list(i32))"),
        typed("x", Type::List(Box::new(Type::List(Box::new(Type::I32)))))
    );
    assert_eq!(
        tree("x:list(tensor(2, f64))"),
        typed(
            "x",
            Type::List(Box::new(tensor(Type::F64, TensorShapeType::Shape(vec![2]))))
        )
    );
    fails("x:list", ParseErrorKind::TypeArguments, 3);
    fails("x:list()", ParseErrorKind::TypeName, 4);
    fails("x:list(f32, f64)", ParseErrorKind::MissingCloser, 5);
    fails("x:list(3)", ParseErrorKind::TypeName, 4);
}

#[test]
fn reserved_names_alone_are_no_types() {
    fails("x:tuple", ParseErrorKind::TypeName, 2);
    fails("x:list(tuple)", ParseErrorKind::TypeName, 4);
}

#[test]
fn device_move() {
    assert_eq!(
        tree("x @ gpu"),
        Expr::Move { val: Box::new(id("x")), device: Box::new(id("gpu")) }
    );
    assert_eq!(
        tree("a + b @ gpu"),
        bin(
            id("a"),
            Token::Plus,
            Expr::Move { val: Box::new(id("b")), device: Box::new(id("gpu")) }
        )
    );
    assert_eq!(
        tree("x @ gpu:Device"),
        Expr::Move {
            val: Box::new(id("x")),
            device: Box::new(typed("gpu", Type::Ext("Device".to_string())))
        }
    );
    fails("x @ 1", ParseErrorKind::MoveDevice, 1);
    fails("x @ (a, b)", ParseErrorKind::MoveDevice, 1);
}

#[test]
fn meta_definition() {
    assert_eq!(
        tree("n # 4"),
        Expr::MetaDefine { name: "n".to_string(), val: Box::new(num(4)) }
    );
    assert_eq!(
        tree("n # a + 1"),
        Expr::MetaDefine {
            name: "n".to_string(),
            val: Box::new(bin(id("a"), Token::Plus, num(1)))
        }
    );
    fails("1 # 4", ParseErrorKind::MetaName, 1);
}

#[test]
fn operators_without_an_infix_production() {
    assert_eq!(
        parse("a ! b"),
        Err(ParseError { kind: ParseErrorKind::UnexpectedInfix, at: 1, left: Some(id("a")) })
    );
    assert_eq!(
        parse("x + a[1]"),
        Err(ParseError { kind: ParseErrorKind::UnexpectedInfix, at: 3, left: Some(id("a")) })
    );
    assert_eq!(
        parse("(1 + 2)[0]"),
        Err(ParseError {
            kind: ParseErrorKind::UnexpectedInfix,
            at: 5,
            left: Some(bin(num(1), Token::Plus, num(2)))
        })
    );
}

#[test]
fn tokens_that_start_no_expression() {
    assert_eq!(
        TokenParser::new(vec![Token::RParen]).parse_exprs(),
        Err(ParseError { kind: ParseErrorKind::UnexpectedStart, at: 0, left: None })
    );
    assert_eq!(
        TokenParser::new(vec![Token::Semicolon, Token::U64(1)]).parse_exprs(),
        Err(ParseError { kind: ParseErrorKind::UnexpectedStart, at: 0, left: None })
    );
    fails("+ 1", ParseErrorKind::UnexpectedStart, 0);
    fails("1 + / 2", ParseErrorKind::UnexpectedStart, 2);
    fails("{}", ParseErrorKind::UnexpectedStart, 0);
    fails("!a", ParseErrorKind::UnexpectedStart, 0);
    fails("a, = 1", ParseErrorKind::UnexpectedStart, 2);
}

#[test]
fn tokens_that_end_too_early() {
    fails("", ParseErrorKind::UnexpectedEnd, 0);
    fails("1 +", ParseErrorKind::UnexpectedEnd, 2);
    fails("-", ParseErrorKind::UnexpectedEnd, 1);
    fails("x =", ParseErrorKind::UnexpectedEnd, 2);
    fails("x @", ParseErrorKind::UnexpectedEnd, 2);
}

#[test]
fn missing_closer() {
    let open = vec![Token::LParen, Token::U64(1)];
    assert_eq!(
        TokenParser::new(open).parse_exprs(),
        Err(ParseError { kind: ParseErrorKind::MissingCloser, at: 2, left: None })
    );
    let wrong = vec![Token::LParen, Token::U64(1), Token::RBracket];
    assert_eq!(
        TokenParser::new(wrong).parse_exprs(),
        Err(ParseError { kind: ParseErrorKind::MissingCloser, at: 2, left: None })
    );
    let call = vec![Token::Symbol("f".to_string()), Token::LParen, Token::U64(1), Token::U64(2)];
    assert_eq!(
        TokenParser::new(call).parse_exprs(),
        Err(ParseError { kind: ParseErrorKind::MissingCloser, at: 3, left: None })
    );
}

#[test]
fn trailing_tokens_fail() {
    fails("a\nb", ParseErrorKind::TrailingTokens, 1);
    fails("1 + 2\n3", ParseErrorKind::TrailingTokens, 3);
    fails("a b", ParseErrorKind::TrailingTokens, 1);
    fails("(a) b", ParseErrorKind::TrailingTokens, 3);
    assert_eq!(
        TokenParser::new(vec![Token::U64(1), Token::RParen]).parse_exprs(),
        Err(ParseError { kind: ParseErrorKind::TrailingTokens, at: 1, left: None })
    );
}

#[test]
fn logical_and_bitwise_operators_end_an_expression() {
    // they bind with power 0, so no expression continues over them
    fails("a && b", ParseErrorKind::TrailingTokens, 1);
    fails("a || b", ParseErrorKind::TrailingTokens, 1);
    fails("a & b", ParseErrorKind::TrailingTokens, 1);
    fails("a | b", ParseErrorKind::TrailingTokens, 1);
    fails("a ^ b", ParseErrorKind::TrailingTokens, 1);
}

#[test]
fn a_fault_is_reported_before_trailing_tokens() {
    fails("1 + / 2 3", ParseErrorKind::UnexpectedStart, 2);
    fails("x:tensor b c", ParseErrorKind::TypeArguments, 3);
}

#[test]
fn a_whole_statement_as_a_tree() {
    assert_eq!(
        tree("y = f(x:f32, 2) @ gpu"),
        Expr::Assign {
            name: Box::new(id("y")),
            val: Box::new(Expr::Move {
                val: Box::new(call(id("f"), Expr::Tuple(vec![typed("x", Type::F32), num(2)]))),
                device: Box::new(id("gpu"))
            })
        }
    );
}

#[test]
fn binding_powers() {
    let p = TokenParser::new(vec![]);
    assert_eq!(p.get_binding_power(&Token::Comma), 1);
    assert_eq!(p.get_binding_power(&Token::FatArrow), 2);
    assert_eq!(p.get_binding_power(&Token::Equal), 3);
    assert_eq!(p.get_binding_power(&Token::Hash), 3);
    for t in [
        Token::DoubleEqual,
        Token::NotEqual,
        Token::GreatThan,
        Token::GreatThanEq,
        Token::LessThan,
        Token::LessThanEq,
    ] {
        assert_eq!(p.get_binding_power(&t), 5);
    }
    assert_eq!(p.get_binding_power(&Token::Plus), 10);
    assert_eq!(p.get_binding_power(&Token::Minus), 10);
    assert_eq!(p.get_binding_power(&Token::Star), 20);
    assert_eq!(p.get_binding_power(&Token::Slash), 20);
    assert_eq!(p.get_binding_power(&Token::Mod), 20);
    assert_eq!(p.get_binding_power(&Token::Not), 30);
    assert_eq!(p.get_binding_power(&Token::Dot), 40);
    assert_eq!(p.get_binding_power(&Token::LParen), 40);
    assert_eq!(p.get_binding_power(&Token::LBracket), 40);
    assert_eq!(p.get_binding_power(&Token::At), 49);
    assert_eq!(p.get_binding_power(&Token::Colon), 50);
    for t in [
        Token::U64(1),
        Token::Symbol("a".to_string()),
        Token::RParen,
        Token::RBracket,
        Token::LBrace,
        Token::RBrace,
        Token::Semicolon,
        Token::LogicAnd,
        Token::LogicOr,
        Token::And,
        Token::Or,
        Token::Xor,
        Token::Cache,
        Token::DoubleSlash,
        Token::DELIMITER,
    ] {
        assert_eq!(p.get_binding_power(&t), 0);
    }
}

#[test]
fn sub_expression_helper() {
    let mut p = TokenParser::new(vec![Token::RParen]);
    assert_eq!(p.parse_sub_and_check_pair(Token::RParen), Ok(Expr::Unit));

    let mut p = TokenParser::new(vec![Token::U64(1), Token::Plus, Token::U64(2), Token::RBracket]);
    assert_eq!(
        p.parse_sub_and_check_pair(Token::RBracket),
        Ok(bin(num(1), Token::Plus, num(2)))
    );

    let mut p = TokenParser::new(vec![Token::U64(1), Token::RParen]);
    assert_eq!(
        p.parse_sub_and_check_pair(Token::RBracket),
        Err(ParseError { kind: ParseErrorKind::MissingCloser, at: 1, left: None })
    );
}

#[test]
fn expression_stops_at_the_given_power() {
    let tokens = LasmiaoLexer::make_tokens("1 * 2 + 3").unwrap();
    let mut p = TokenParser::new(tokens);
    assert_eq!(p.parse_expression(10), Ok(bin(num(1), Token::Star, num(2))));
    assert_eq!(
        p.parse_exprs(),
        Err(ParseError { kind: ParseErrorKind::UnexpectedStart, at: 3, left: None })
    );
}

#[test]
fn type_annotation_reader() {
    let tokens = LasmiaoLexer::make_tokens("list(u32) rest").unwrap();
    let mut p = TokenParser::new(tokens);
    assert_eq!(p.parse_type_annotation(), Ok(Type::List(Box::new(Type::U32))));
    assert_eq!(p.parse_exprs(), Ok(id("rest")));
}

#[test]
fn two_operators_group_by_their_powers() {
    let ops = [
        Token::DoubleEqual,
        Token::NotEqual,
        Token::LessThan,
        Token::LessThanEq,
        Token::GreatThan,
        Token::GreatThanEq,
        Token::Plus,
        Token::Minus,
        Token::Star,
        Token::Slash,
        Token::Mod,
    ];
    let p = TokenParser::new(vec![]);
    for first_op in &ops {
        for second_op in &ops {
            let tokens = vec![
                Token::Symbol("a".to_string()),
                first_op.clone(),
                Token::U64(2),
                second_op.clone(),
                Token::Symbol("c".to_string()),
            ];
            let got = TokenParser::new(tokens).parse_exprs();
            let expected = if p.get_binding_power(second_op) <= p.get_binding_power(first_op) {
                bin(bin(id("a"), first_op.clone(), num(2)), second_op.clone(), id("c"))
            } else {
                bin(id("a"), first_op.clone(), bin(num(2), second_op.clone(), id("c")))
            };
            assert_eq!(got, Ok(expected));
        }
    }
}

#[test]
fn a_complete_expression_with_more_behind_it_fails() {
    let firsts = ["1 + 2", "f(x)", "x:tensor(3, f32)", "a.f", "a.f(b)", "(a, b) => a", "[1, 2]"];
    let stops = [
        Token::Semicolon,
        Token::U64(1),
        Token::Symbol("z".to_string()),
        Token::RParen,
        Token::RBracket,
        Token::LBrace,
        Token::Cache,
        Token::LogicAnd,
    ];
    for first in firsts {
        let tokens = LasmiaoLexer::make_tokens(first).unwrap();
        let n = tokens.len();
        for stop in &stops {
            let mut longer = tokens.clone();
            longer.push(stop.clone());
            longer.push(Token::Plus);
            assert_eq!(
                TokenParser::new(longer).parse_exprs(),
                Err(ParseError { kind: ParseErrorKind::TrailingTokens, at: n, left: None })
            );
        }
    }
}

#[test]
fn the_cursor_never_moves_back() {
    let tokens = LasmiaoLexer::make_tokens("1 + 2").unwrap();
    let mut p = TokenParser::new(tokens);
    assert_eq!(p.parse_exprs(), Ok(bin(num(1), Token::Plus, num(2))));
    assert_eq!(
        p.parse_exprs(),
        Err(ParseError { kind: ParseErrorKind::UnexpectedEnd, at: 3, left: None })
    );
}

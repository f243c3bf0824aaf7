use lasmiao::{try_match_pair, Decimal, LasmiaoLexer, LexError, Lexer, Token};
use std::collections::VecDeque;

fn lex(input: &str) -> Vec<Token> {
    LasmiaoLexer::make_tokens(input).expect("the text has a token sequence")
}

fn sym(name: &str) -> Token {
    Token::Symbol(name.to_string())
}

fn dec(whole: u64, frac: &[u8]) -> Token {
    Token::F64(Decimal { whole, frac: frac.to_vec() })
}

#[test]
fn empty_text_has_no_tokens() {
    assert_eq!(lex(""), vec![]);
    assert_eq!(lex("  \t "), vec![]);
    assert_eq!(lex("\n"), vec![]);
    assert_eq!(lex("\n\n  \n"), vec![]);
}

#[test]
fn blank_text_with_balanced_brackets_gives_only_brackets() {
    assert_eq!(
        lex(" ( [ ] { } ) "),
        vec![
            Token::LParen,
            Token::LBracket,
            Token::RBracket,
            Token::LBrace,
            Token::RBrace,
            Token::RParen
        ]
    );
    assert_eq!(lex("()\n[]"), vec![Token::LParen, Token::RParen, Token::Semicolon, Token::LBracket, Token::RBracket]);
}

#[test]
fn single_character_operators() {
    assert_eq!(
        lex("+ - * / % , . : ^ @ $ #"),
        vec![
            Token::Plus,
            Token::Minus,
            Token::Star,
            Token::Slash,
            Token::Mod,
            Token::Comma,
            Token::Dot,
            Token::Colon,
            Token::Xor,
            Token::At,
            Token::Cache,
            Token::Hash
        ]
    );
}

#[test]
fn two_character_operators_come_before_their_prefixes() {
    assert_eq!(
        lex("== != <= >= && || =>"),
        vec![
            Token::DoubleEqual,
            Token::NotEqual,
            Token::LessThanEq,
            Token::GreatThanEq,
            Token::LogicAnd,
            Token::LogicOr,
            Token::FatArrow
        ]
    );
    assert_eq!(
        lex("= ! < > & |"),
        vec![Token::Equal, Token::Not, Token::LessThan, Token::GreatThan, Token::And, Token::Or]
    );
    assert_eq!(lex("==="), vec![Token::DoubleEqual, Token::Equal]);
    assert_eq!(lex("=>="), vec![Token::FatArrow, Token::Equal]);
    assert_eq!(lex("&&&"), vec![Token::LogicAnd, Token::And]);
    assert_eq!(lex("<"), vec![Token::LessThan]);
    assert_eq!(lex("a<=b"), vec![sym("a"), Token::LessThanEq, sym("b")]);
}

#[test]
fn integer_literal_round_trip() {
    assert_eq!(lex("0"), vec![Token::U64(0)]);
    assert_eq!(lex("7"), vec![Token::U64(7)]);
    assert_eq!(lex("12345"), vec![Token::U64(12345)]);
    assert_eq!(lex("007"), vec![Token::U64(7)]);
    assert_eq!(lex("18446744073709551615"), vec![Token::U64(u64::MAX)]);
}

#[test]
fn integer_literal_too_large() {
    assert_eq!(
        LasmiaoLexer::make_tokens("18446744073709551616"),
        Err(LexError::LiteralTooLarge { at: 0 })
    );
    assert_eq!(
        LasmiaoLexer::make_tokens("x + 99999999999999999999"),
        Err(LexError::LiteralTooLarge { at: 4 })
    );
    assert_eq!(
        LasmiaoLexer::make_tokens("0x10000000000000000"),
        Err(LexError::LiteralTooLarge { at: 0 })
    );
    assert_eq!(
        LasmiaoLexer::make_tokens("99999999999999999999.5"),
        Err(LexError::LiteralTooLarge { at: 0 })
    );
}

#[test]
fn hexadecimal_literals() {
    assert_eq!(lex("0x1F"), vec![Token::U64(31)]);
    assert_eq!(lex("0xff"), vec![Token::U64(255)]);
    assert_eq!(lex("0x"), vec![Token::U64(0)]);
    assert_eq!(lex("0xFFFFFFFFFFFFFFFF"), vec![Token::U64(u64::MAX)]);
    assert_eq!(lex("0x1g"), vec![Token::U64(1), sym("g")]);
    assert_eq!(lex("1x2"), vec![Token::U64(1), sym("x2")]);
    assert_eq!(lex("00x5"), vec![Token::U64(0), sym("x5")]);
}

#[test]
fn hexadecimal_and_fraction_exclude_each_other() {
    assert_eq!(lex("0x1F.5"), vec![Token::U64(31), Token::Dot, Token::U64(5)]);
    assert_eq!(lex("0.5x3"), vec![dec(0, &[5]), sym("x3")]);
}

#[test]
fn literals_with_a_point() {
    assert_eq!(lex("1.5"), vec![dec(1, &[5])]);
    assert_eq!(lex("3.1415"), vec![dec(3, &[1, 4, 1, 5])]);
    assert_eq!(lex("10.05"), vec![dec(10, &[0, 5])]);
    assert_eq!(lex("2."), vec![dec(2, &[])]);
    assert_eq!(lex("0.000000000000000000000000000001"), vec![dec(0, &[0, 0, 0, 0, 0, 0, 0, 0, 0, 0, 0, 0, 0, 0, 0, 0, 0, 0, 0, 0, 0, 0, 0, 0, 0, 0, 0, 0, 0, 1])]);
}

#[test]
fn each_point_starts_the_fraction_anew() {
    assert_eq!(lex("1.5.25"), vec![dec(1, &[2, 5])]);
    assert_eq!(lex("1..5"), vec![dec(1, &[5])]);
    assert_eq!(lex("1.5."), vec![dec(1, &[])]);
}

#[test]
fn a_point_alone_is_a_dot() {
    assert_eq!(lex(".5"), vec![Token::Dot, Token::U64(5)]);
    assert_eq!(lex("a.b"), vec![sym("a"), Token::Dot, sym("b")]);
}

#[test]
fn symbols() {
    assert_eq!(lex("abc"), vec![sym("abc")]);
    assert_eq!(lex("a_b1 C2"), vec![sym("a_b1"), sym("C2")]);
    assert_eq!(lex("_x"), vec![sym("_x")]);
    assert_eq!(lex("x1+y"), vec![sym("x1"), Token::Plus, sym("y")]);
}

#[test]
fn any_other_character_starts_a_symbol() {
    assert_eq!(lex(";"), vec![sym(";")]);
    assert_eq!(lex("?a1 b"), vec![sym("?a1"), sym("b")]);
    assert_eq!(lex("~~"), vec![sym("~"), sym("~")]);
    assert_eq!(lex("\u{e9}t\u{e9}"), vec![sym("\u{e9}t"), sym("\u{e9}")]);
    assert_eq!(lex("\"hi\""), vec![sym("\"hi"), sym("\"")]);
}

#[test]
fn symbols_in_a_text_with_other_than_ascii() {
    assert_eq!(
        lex("\u{3b1} + abc\n\u{4e2d}\u{6587}_1 x"),
        vec![
            sym("\u{3b1}"),
            Token::Plus,
            sym("abc"),
            Token::Semicolon,
            sym("\u{4e2d}"),
            sym("\u{6587}_1"),
            sym("x")
        ]
    );
}

#[test]
fn comments_are_discarded() {
    assert_eq!(lex("// nothing here"), vec![]);
    assert_eq!(lex("a // b + c"), vec![sym("a")]);
    assert_eq!(lex("a // b\nc"), vec![sym("a"), Token::Semicolon, sym("c")]);
    assert_eq!(lex("a / b"), vec![sym("a"), Token::Slash, sym("b")]);
    assert_eq!(lex("a /// b ( ["), vec![sym("a")]);
    assert_eq!(lex("//"), vec![]);
}

#[test]
fn a_comment_hides_brackets() {
    assert_eq!(lex("( // )\n)"), vec![Token::LParen, Token::RParen]);
    assert_eq!(
        LasmiaoLexer::make_tokens("( // )"),
        Err(LexError::Unclosed { remaining: vec![')'] })
    );
}

#[test]
fn blank_line_gives_one_separator() {
    assert_eq!(lex("a\n\nb"), vec![sym("a"), Token::Semicolon, sym("b")]);
    assert_eq!(lex("a\n \t\n\n\nb"), vec![sym("a"), Token::Semicolon, sym("b")]);
}

#[test]
fn newline_inside_brackets_gives_no_separator() {
    assert_eq!(lex("f(\n1)"), vec![sym("f"), Token::LParen, Token::U64(1), Token::RParen]);
    assert_eq!(
        lex("[1,\n2]\n3"),
        vec![
            Token::LBracket,
            Token::U64(1),
            Token::Comma,
            Token::U64(2),
            Token::RBracket,
            Token::Semicolon,
            Token::U64(3)
        ]
    );
}

#[test]
fn no_separator_at_either_end() {
    assert_eq!(lex("a\n"), vec![sym("a")]);
    assert_eq!(lex("a\n\n\n"), vec![sym("a")]);
    assert_eq!(lex("\na"), vec![sym("a")]);
    assert_eq!(lex("\n\n a \n b \n"), vec![sym("a"), Token::Semicolon, sym("b")]);
    assert_eq!(lex("// note\na"), vec![sym("a")]);
}

#[test]
fn unclosed_bracket_fails() {
    assert_eq!(
        LasmiaoLexer::make_tokens("(1 + 2"),
        Err(LexError::Unclosed { remaining: vec![')'] })
    );
    assert_eq!(
        LasmiaoLexer::make_tokens("([{"),
        Err(LexError::Unclosed { remaining: vec![')', ']', '}'] })
    );
    assert_eq!(
        LasmiaoLexer::make_tokens("(()"),
        Err(LexError::Unclosed { remaining: vec![')'] })
    );
}

#[test]
fn each_opener_accepts_only_its_own_closer() {
    let openers = ['(', '[', '{'];
    let closers = [')', ']', '}'];
    for (i, open) in openers.iter().enumerate() {
        for (j, close) in closers.iter().enumerate() {
            let text = format!("{} \n\t {}", open, close);
            let got = LasmiaoLexer::make_tokens(&text);
            if i == j {
                assert!(got.is_ok());
                assert_eq!(got.unwrap().len(), 2);
            } else {
                assert_eq!(got, Err(LexError::Mismatched { expect: closers[i], got: *close }));
            }
        }
        let text = format!("{} ", open);
        assert_eq!(
            LasmiaoLexer::make_tokens(&text),
            Err(LexError::Unclosed { remaining: vec![closers[i]] })
        );
    }
}

#[test]
fn closer_without_opener_fails() {
    assert_eq!(LasmiaoLexer::make_tokens(")"), Err(LexError::Unmatched { got: ')' }));
    assert_eq!(LasmiaoLexer::make_tokens("a ]"), Err(LexError::Unmatched { got: ']' }));
    assert_eq!(LasmiaoLexer::make_tokens("() }"), Err(LexError::Unmatched { got: '}' }));
}

#[test]
fn mismatched_closer_fails_at_the_innermost_bracket() {
    assert_eq!(
        LasmiaoLexer::make_tokens("(a + [b)"),
        Err(LexError::Mismatched { expect: ']', got: ')' })
    );
    assert_eq!(
        LasmiaoLexer::make_tokens("{(})"),
        Err(LexError::Mismatched { expect: ')', got: '}' })
    );
}

#[test]
fn the_first_fault_is_reported() {
    assert_eq!(
        LasmiaoLexer::make_tokens(") 99999999999999999999"),
        Err(LexError::Unmatched { got: ')' })
    );
    assert_eq!(
        LasmiaoLexer::make_tokens("99999999999999999999 )"),
        Err(LexError::LiteralTooLarge { at: 0 })
    );
}

#[test]
fn a_whole_statement() {
    assert_eq!(
        lex("y = f(x:f32, 0x10) @ gpu // move"),
        vec![
            sym("y"),
            Token::Equal,
            sym("f"),
            Token::LParen,
            sym("x"),
            Token::Colon,
            sym("f32"),
            Token::Comma,
            Token::U64(16),
            Token::RParen,
            Token::At,
            sym("gpu")
        ]
    );
}

#[test]
fn try_match_pair_pops_and_compares() {
    let mut stack: VecDeque<char> = VecDeque::new();
    assert_eq!(try_match_pair(&mut stack, ')'), Err(LexError::Unmatched { got: ')' }));
    assert!(stack.is_empty());

    stack.push_back(')');
    stack.push_back(']');
    assert_eq!(try_match_pair(&mut stack, ']'), Ok(()));
    assert_eq!(stack, VecDeque::from(vec![')']));

    stack.push_back('}');
    assert_eq!(
        try_match_pair(&mut stack, ')'),
        Err(LexError::Mismatched { expect: '}', got: ')' })
    );
    assert_eq!(stack, VecDeque::from(vec![')']));
}

#[test]
fn token_same_agrees_with_equality() {
    let tokens = lex("a b 1 2 1.5 1.25 + - ( )");
    for x in &tokens {
        for y in &tokens {
            assert_eq!(x.same(y), x == y);
        }
    }
    assert!(sym("a").same(&sym("a")));
    assert!(dec(1, &[5]).same(&dec(1, &[5])));
    assert!(!dec(1, &[5]).same(&dec(1, &[5, 0])));
    assert!(!Token::DoubleSlash.same(&Token::DELIMITER));
}

#[test]
fn token_clone_is_the_same_token() {
    for t in lex("a 1 1.5 + ( ) =>") {
        assert_eq!(t.clone(), t);
    }
}

fn value_of(d: &Decimal) -> f64 {
    let mut value = d.whole as f64;
    for (k, digit) in d.frac.iter().enumerate() {
        value += *digit as f64 * 10_f64.powi(-(k as i32 + 1));
    }
    value
}

#[test]
fn point_literal_has_the_value_of_its_text() {
    for text in ["1.5", "0.25", "3.125", "10.0", "2.", "123.456"] {
        match &lex(text)[0] {
            Token::F64(d) => {
                let exact: f64 = text.parse().unwrap();
                assert!((value_of(d) - exact).abs() <= 1e-12 * exact.abs().max(1.0));
            }
            other => panic!("{:?} is no literal with a point", other),
        }
    }
    assert_eq!(value_of(&Decimal { whole: 1, frac: vec![5] }), 1.5);
    assert_eq!(value_of(&Decimal { whole: 0, frac: vec![2, 5] }), 0.25);
}

#[test]
fn tokens_are_well_separated() {
    for text in ["\n\na\n\n\nb\n\n", "(\n)\n\n[\n]\n", "// x\n\n// y\n", "a\n(b\n)\nc"] {
        let tokens = lex(text);
        assert!(tokens.first() != Some(&Token::Semicolon));
        assert!(tokens.last() != Some(&Token::Semicolon));
        for pair in tokens.windows(2) {
            assert!(!(pair[0] == Token::Semicolon && pair[1] == Token::Semicolon));
        }
    }
}

#[test]
fn nested_balanced_brackets_do_not_hide_a_wrong_closer() {
    assert_eq!(
        LasmiaoLexer::make_tokens("( [ ] { ( ) } \n ]"),
        Err(LexError::Mismatched { expect: ')', got: ']' })
    );
    assert_eq!(
        LasmiaoLexer::make_tokens("{ [ ] ( ) "),
        Err(LexError::Unclosed { remaining: vec!['}'] })
    );
    assert!(LasmiaoLexer::make_tokens("( [ ] { ( ) } \n )").is_ok());
}

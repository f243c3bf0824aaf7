//! The tokenizer: source text to tokens, with the brackets checked on the way.

use std::collections::VecDeque;
use vstd::prelude::*;
use vstd::string::is_ascii;
use crate::lex_model::{
    after_last_dot, digit_value, digits, is_digit, lemma_run_end, lemma_unit_end_advances,
    lex_from, literal_end, literal_magnitude, literal_token, number, run_end, tokenize,
    CharClass, LexFailure,
};
use crate::lex_laws::{lemma_tokens_are_well_separated, well_separated};
use crate::token::{token_views, Decimal, Token};

verus! {

/// Why tokenizing failed.
#[derive(Debug, PartialEq, Eq)]
pub enum LexError {
    /// A closing bracket with no bracket open.
    Unmatched { got: char },
    /// A closing bracket other than the one that the innermost open bracket expects.
    Mismatched { expect: char, got: char },
    /// The text ended with brackets open; their expected closers, outermost first.
    Unclosed { remaining: Vec<char> },
    /// The integer part of the literal that starts at character `at` does not fit in
    /// 64 bits.
    LiteralTooLarge { at: usize },
}

impl View for LexError {
    type V = LexFailure;

    open spec fn view(&self) -> LexFailure {
        match self {
            LexError::Unmatched { got } => LexFailure::Unmatched { got: *got },
            LexError::Mismatched { expect, got } => LexFailure::Mismatched {
                expect: *expect,
                got: *got,
            },
            LexError::Unclosed { remaining } => LexFailure::Unclosed { remaining: remaining@ },
            LexError::LiteralTooLarge { at } => LexFailure::LiteralTooLarge { at: *at as int },
        }
    }
}

/// Takes the innermost expected closer off the stack and holds `got` against it.
///
/// The stack loses its last entry whenever it has one, also when that entry is not
/// `got`.
pub fn try_match_pair(pair_queue: &mut VecDeque<char>, got: char) -> (r: Result<(), LexError>)
    ensures
        old(pair_queue)@.len() == 0 ==> r == Err::<(), LexError>(LexError::Unmatched { got })
            && final(pair_queue)@ == old(pair_queue)@,
        old(pair_queue)@.len() > 0 ==> final(pair_queue)@ == old(pair_queue)@.drop_last(),
        old(pair_queue)@.len() > 0 && old(pair_queue)@.last() == got ==> r is Ok,
        old(pair_queue)@.len() > 0 && old(pair_queue)@.last() != got ==> r == Err::<(), LexError>(
            LexError::Mismatched { expect: old(pair_queue)@.last(), got },
        ),
{
    match pair_queue.pop_back() {
        Some(expect) => {
            if expect == got {
                Ok(())
            } else {
                Err(LexError::Mismatched { expect, got })
            }
        },
        None => Err(LexError::Unmatched { got }),
    }
}

impl CharClass {
    /// Whether `c` belongs to the class.
    pub fn contains(self, c: char) -> (b: bool)
        ensures
            b == self.holds(c),
    {
        let digit = '0' <= c && c <= '9';
        match self {
            CharClass::Digit => digit,
            CharClass::HexDigit => digit || ('a' <= c && c <= 'f') || ('A' <= c && c <= 'F'),
            CharClass::DigitOrDot => digit || c == '.',
            CharClass::Word => digit || ('a' <= c && c <= 'z') || ('A' <= c && c <= 'Z') || c
                == '_',
            CharClass::NotNewline => c != '\n',
        }
    }
}

/// The characters of a text, in order.
fn chars_of(input: &str) -> (chars: Vec<char>)
    ensures
        chars@ == input@,
{
    let mut chars: Vec<char> = Vec::new();
    for c in it: input.chars()
        invariant
            it.seq() == input@,
            chars@ == it.seq().take(it.index()),
    {
        chars.push(c);
    }
    chars
}

/// The end of the run of characters of `class` that starts at `from`.
fn scan(chars: &Vec<char>, from: usize, class: CharClass) -> (end: usize)
    requires
        from <= chars.len(),
    ensures
        end == run_end(chars@, from as int, class),
        from <= end <= chars.len(),
{
    let mut i: usize = from;
    while i < chars.len() && class.contains(chars[i])
        invariant
            from <= i <= chars.len(),
            run_end(chars@, from as int, class) == run_end(chars@, i as int, class),
        decreases chars.len() - i,
    {
        i += 1;
    }
    i
}

/// The value of a digit in base 16; 0 for any other character.
fn digit_of(c: char) -> (d: u64)
    ensures
        d == digit_value(c),
        d <= 15,
{
    if '0' <= c && c <= '9' {
        (c as u32 - '0' as u32) as u64
    } else if 'a' <= c && c <= 'f' {
        (c as u32 - 'a' as u32 + 10) as u64
    } else if 'A' <= c && c <= 'F' {
        (c as u32 - 'A' as u32 + 10) as u64
    } else {
        0
    }
}

/// A number does not shrink when more digits are read.
proof fn lemma_number_grows(input: Seq<char>, from: int, mid: int, to: int, base: nat)
    requires
        from <= mid <= to,
        base >= 1,
    ensures
        number(input, from, mid, base) <= number(input, from, to, base),
    decreases to - mid,
{
    if mid < to {
        lemma_number_grows(input, from, mid, to - 1, base);
        assert(number(input, from, to - 1, base) <= number(input, from, to - 1, base) * base)
            by (nonlinear_arith)
            requires
                base >= 1,
        ;
    }
}

/// The number that the digits in `[from, to)` spell, unless it is too large to hold.
fn read_number(chars: &Vec<char>, from: usize, to: usize, base: u64) -> (r: Option<u64>)
    requires
        from <= to <= chars.len(),
        base == 10 || base == 16,
    ensures
        number(chars@, from as int, to as int, base as nat) <= u64::MAX ==> r == Some(
            number(chars@, from as int, to as int, base as nat) as u64,
        ),
        number(chars@, from as int, to as int, base as nat) > u64::MAX ==> r is None,
{
    let mut value: u64 = 0;
    let mut i: usize = from;
    while i < to
        invariant
            from <= i <= to <= chars.len(),
            base == 10 || base == 16,
            value == number(chars@, from as int, i as int, base as nat),
        decreases to - i,
    {
        let d = digit_of(chars[i]);
        proof {
            lemma_number_grows(chars@, from as int, i + 1, to as int, base as nat);
        }
        match value.checked_mul(base) {
            None => {
                return None;
            },
            Some(shifted) => match shifted.checked_add(d) {
                None => {
                    return None;
                },
                Some(next) => {
                    value = next;
                },
            },
        }
        i += 1;
    }
    Some(value)
}

/// The digits in `[from, to)`, one value per place.
fn read_digits(chars: &Vec<char>, from: usize, to: usize) -> (r: Vec<u8>)
    requires
        from <= to <= chars.len(),
    ensures
        r@ == digits(chars@, from as int, to as int),
{
    let mut places: Vec<u8> = Vec::new();
    let mut i: usize = from;
    while i < to
        invariant
            from <= i <= to <= chars.len(),
            places@ == digits(chars@, from as int, i as int),
        decreases to - i,
    {
        let d = digit_of(chars[i]);
        places.push(d as u8);
        assert(places@ =~= digits(chars@, from as int, i + 1));
        i += 1;
    }
    places
}

/// In `[from, to)`, the position after the last `.`, or `from` when there is none.
fn find_after_last_dot(chars: &Vec<char>, from: usize, to: usize) -> (r: usize)
    requires
        from <= to <= chars.len(),
    ensures
        r == after_last_dot(chars@, from as int, to as int),
        from <= r <= to,
{
    let mut i: usize = to;
    while i > from && chars[i - 1] != '.'
        invariant
            from <= i <= to <= chars.len(),
            after_last_dot(chars@, from as int, to as int) == after_last_dot(
                chars@,
                from as int,
                i as int,
            ),
        decreases i - from,
    {
        i -= 1;
    }
    i
}

/// The characters of `input` in `[from, to)` as a `String`. In a text of ASCII alone,
/// which `ascii` says, the piece is cut out by its byte positions.
fn text_of(input: &str, ascii: bool, from: usize, to: usize) -> (r: String)
    requires
        ascii == is_ascii(input),
        from <= to <= input@.len(),
    ensures
        r@ == input@.subrange(from as int, to as int),
{
    if ascii {
        String::from_str(input.substring_ascii(from, to))
    } else {
        String::from_str(input.substring_char(from, to))
    }
}

/// Reads the numeric literal that starts at `pos`: where it ends, and its token unless
/// its integer part is too large to hold.
fn read_literal(chars: &Vec<char>, pos: usize) -> (r: (usize, Option<Token>))
    requires
        pos < chars.len(),
        is_digit(chars@[pos as int]),
    ensures
        r.0 == literal_end(chars@, pos as int),
        pos < r.0 <= chars.len(),
        literal_magnitude(chars@, pos as int) > u64::MAX ==> r.1 is None,
        literal_magnitude(chars@, pos as int) <= u64::MAX ==> r.1 is Some && r.1.unwrap()@
            == literal_token(chars@, pos as int),
{
    let n = chars.len();
    proof {
        lemma_unit_end_advances(chars@, pos as int);
    }
    if chars[pos] == '0' && pos + 1 < n && chars[pos + 1] == 'x' {
        let end = scan(chars, pos + 2, CharClass::HexDigit);
        match read_number(chars, pos + 2, end, 16) {
            Some(value) => (end, Some(Token::U64(value))),
            None => (end, None),
        }
    } else {
        let whole_end = scan(chars, pos, CharClass::Digit);
        let whole = read_number(chars, pos, whole_end, 10);
        if whole_end < n && chars[whole_end] == '.' {
            let end = scan(chars, whole_end, CharClass::DigitOrDot);
            proof {
                lemma_run_end(chars@, whole_end + 1, CharClass::DigitOrDot);
            }
            let start = find_after_last_dot(chars, whole_end + 1, end);
            match whole {
                Some(value) => {
                    let frac = read_digits(chars, start, end);
                    (end, Some(Token::F64(Decimal { whole: value, frac })))
                },
                None => (end, None),
            }
        } else {
            match whole {
                Some(value) => (whole_end, Some(Token::U64(value))),
                None => (whole_end, None),
            }
        }
    }
}

/// Appends a token.
fn emit(tokens: &mut Vec<Token>, token: Token)
    ensures
        final(tokens)@ == old(tokens)@.push(token),
        token_views(final(tokens)@) == token_views(old(tokens)@).push(token@),
{
    tokens.push(token);
    assert(token_views(tokens@) =~= token_views(old(tokens)@).push(token@));
}

/// Whether the last token is a statement separator.
fn ends_with_separator(tokens: &Vec<Token>) -> (b: bool)
    ensures
        b == (token_views(tokens@).len() > 0 && token_views(tokens@).last() is Semicolon),
        token_views(tokens@).len() == tokens.len(),
{
    let n = tokens.len();
    if n == 0 {
        false
    } else {
        match &tokens[n - 1] {
            Token::Semicolon => true,
            _ => false,
        }
    }
}

/// The expected closers that are still on the stack, outermost first.
fn remaining_closers(pair_queue: &VecDeque<char>) -> (r: Vec<char>)
    ensures
        r@ == pair_queue@,
{
    let mut remaining: Vec<char> = Vec::new();
    let mut i: usize = 0;
    while i < pair_queue.len()
        invariant
            i <= pair_queue@.len(),
            remaining@ == pair_queue@.take(i as int),
        decreases pair_queue@.len() - i,
    {
        remaining.push(pair_queue[i]);
        assert(remaining@ =~= pair_queue@.take(i + 1));
        i += 1;
    }
    assert(pair_queue@.take(i as int) =~= pair_queue@);
    remaining
}

/// A tokenizer for one language.
pub trait Lexer {
    /// The tokens of `input`, in order.
    fn make_tokens(input: &str) -> Result<Vec<Token>, LexError>;
}

/// The tokenizer of the expression language.
pub struct LasmiaoLexer;

impl Lexer for LasmiaoLexer {
    /// Tokenizes `input`: the result is exactly what [`tokenize`] gives for its
    /// characters, the tokens on success and the failure otherwise. The tokens never
    /// start or end with a statement separator and never hold two in a row.
    fn make_tokens(input: &str) -> (r: Result<Vec<Token>, LexError>)
        ensures
            match tokenize(input@) {
                Ok(views) => r is Ok && token_views(r.unwrap()@) == views,
                Err(failure) => r is Err && r.unwrap_err()@ == failure,
            },
            r is Ok ==> well_separated(token_views(r.unwrap()@)),
    {
        proof {
            lemma_tokens_are_well_separated(input@);
        }
        let chars = chars_of(input);
        let ascii = input.is_ascii();
        let n = chars.len();
        let mut tokens: Vec<Token> = Vec::new();
        let mut pair_queue: VecDeque<char> = VecDeque::new();
        let mut i: usize = 0;
        assert(token_views(tokens@) =~= Seq::empty());
        assert(pair_queue@ =~= Seq::empty());
        while i < n
            invariant
                i <= n,
                n == chars.len(),
                chars@ == input@,
                ascii == is_ascii(input),
                tokenize(input@) == lex_from(
                    chars@,
                    i as int,
                    pair_queue@,
                    token_views(tokens@),
                ),
            decreases n - i,
        {
            let c = chars[i];
            let second_is_equal = i + 1 < n && chars[i + 1] == '=';
            proof {
                lemma_unit_end_advances(chars@, i as int);
            }
            match c {
                ' ' | '\t' => {
                    i += 1;
                },
                '\n' => {
                    i += 1;
                    if pair_queue.len() == 0 && tokens.len() > 0 && !ends_with_separator(&tokens) {
                        emit(&mut tokens, Token::Semicolon);
                    }
                },
                '+' => {
                    i += 1;
                    emit(&mut tokens, Token::Plus);
                },
                '-' => {
                    i += 1;
                    emit(&mut tokens, Token::Minus);
                },
                '*' => {
                    i += 1;
                    emit(&mut tokens, Token::Star);
                },
                '/' => {
                    if i + 1 < n && chars[i + 1] == '/' {
                        i = scan(&chars, i + 2, CharClass::NotNewline);
                    } else {
                        i += 1;
                        emit(&mut tokens, Token::Slash);
                    }
                },
                '%' => {
                    i += 1;
                    emit(&mut tokens, Token::Mod);
                },
                '(' => {
                    i += 1;
                    emit(&mut tokens, Token::LParen);
                    pair_queue.push_back(')');
                },
                ')' => {
                    i += 1;
                    emit(&mut tokens, Token::RParen);
                    match try_match_pair(&mut pair_queue, c) {
                        Ok(()) => {},
                        Err(e) => {
                            return Err(e);
                        },
                    }
                },
                '[' => {
                    i += 1;
                    emit(&mut tokens, Token::LBracket);
                    pair_queue.push_back(']');
                },
                ']' => {
                    i += 1;
                    emit(&mut tokens, Token::RBracket);
                    match try_match_pair(&mut pair_queue, c) {
                        Ok(()) => {},
                        Err(e) => {
                            return Err(e);
                        },
                    }
                },
                '{' => {
                    i += 1;
                    emit(&mut tokens, Token::LBrace);
                    pair_queue.push_back('}');
                },
                '}' => {
                    i += 1;
                    emit(&mut tokens, Token::RBrace);
                    match try_match_pair(&mut pair_queue, c) {
                        Ok(()) => {},
                        Err(e) => {
                            return Err(e);
                        },
                    }
                },
                ',' => {
                    i += 1;
                    emit(&mut tokens, Token::Comma);
                },
                '.' => {
                    i += 1;
                    emit(&mut tokens, Token::Dot);
                },
                '=' => {
                    if second_is_equal {
                        i += 2;
                        emit(&mut tokens, Token::DoubleEqual);
                    } else if i + 1 < n && chars[i + 1] == '>' {
                        i += 2;
                        emit(&mut tokens, Token::FatArrow);
                    } else {
                        i += 1;
                        emit(&mut tokens, Token::Equal);
                    }
                },
                ':' => {
                    i += 1;
                    emit(&mut tokens, Token::Colon);
                },
                '!' => {
                    if second_is_equal {
                        i += 2;
                        emit(&mut tokens, Token::NotEqual);
                    } else {
                        i += 1;
                        emit(&mut tokens, Token::Not);
                    }
                },
                '<' => {
                    if second_is_equal {
                        i += 2;
                        emit(&mut tokens, Token::LessThanEq);
                    } else {
                        i += 1;
                        emit(&mut tokens, Token::LessThan);
                    }
                },
                '>' => {
                    if second_is_equal {
                        i += 2;
                        emit(&mut tokens, Token::GreatThanEq);
                    } else {
                        i += 1;
                        emit(&mut tokens, Token::GreatThan);
                    }
                },
                '&' => {
                    if i + 1 < n && chars[i + 1] == '&' {
                        i += 2;
                        emit(&mut tokens, Token::LogicAnd);
                    } else {
                        i += 1;
                        emit(&mut tokens, Token::And);
                    }
                },
                '|' => {
                    if i + 1 < n && chars[i + 1] == '|' {
                        i += 2;
                        emit(&mut tokens, Token::LogicOr);
                    } else {
                        i += 1;
                        emit(&mut tokens, Token::Or);
                    }
                },
                '^' => {
                    i += 1;
                    emit(&mut tokens, Token::Xor);
                },
                '@' => {
                    i += 1;
                    emit(&mut tokens, Token::At);
                },
                '$' => {
                    i += 1;
                    emit(&mut tokens, Token::Cache);
                },
                '#' => {
                    i += 1;
                    emit(&mut tokens, Token::Hash);
                },
                _ => {
                    if '0' <= c && c <= '9' {
                        let (end, literal) = read_literal(&chars, i);
                        match literal {
                            Some(token) => {
                                emit(&mut tokens, token);
                            },
                            None => {
                                return Err(LexError::LiteralTooLarge { at: i });
                            },
                        }
                        i = end;
                    } else {
                        let end = scan(&chars, i + 1, CharClass::Word);
                        let symbol = text_of(input, ascii, i, end);
                        emit(&mut tokens, Token::Symbol(symbol));
                        i = end;
                    }
                },
            }
        }
        if pair_queue.len() != 0 {
            return Err(LexError::Unclosed { remaining: remaining_closers(&pair_queue) });
        }
        if ends_with_separator(&tokens) {
            let ghost before = tokens@;
            tokens.pop();
            assert(token_views(tokens@) =~= token_views(before).drop_last());
        }
        Ok(tokens)
    }
}

} // verus!

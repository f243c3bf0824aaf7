//! What tokenizing means: the token sequence of a text, as a function on `Seq<char>`.

use vstd::prelude::*;
use crate::token::{DecimalView, TokenView};

verus! {

/// Why a text has no token sequence.
pub ghost enum LexFailure {
    /// A closing bracket with no bracket open.
    Unmatched { got: char },
    /// A closing bracket other than the one that the innermost open bracket expects.
    Mismatched { expect: char, got: char },
    /// The text ended with brackets open; their expected closers, outermost first.
    Unclosed { remaining: Seq<char> },
    /// The integer part of the literal that starts at `at` does not fit in 64 bits.
    LiteralTooLarge { at: int },
}

/// The classes of characters that a scan runs over.
#[derive(Clone, Copy, Debug, PartialEq, Eq)]
pub enum CharClass {
    /// `0` to `9`.
    Digit,
    /// `0` to `9`, `a` to `f`, `A` to `F`.
    HexDigit,
    /// `0` to `9` and `.`.
    DigitOrDot,
    /// ASCII letters, digits and `_`.
    Word,
    /// Everything but a line break.
    NotNewline,
}

pub open spec fn is_digit(c: char) -> bool {
    '0' <= c <= '9'
}

pub open spec fn is_hex_digit(c: char) -> bool {
    is_digit(c) || 'a' <= c <= 'f' || 'A' <= c <= 'F'
}

pub open spec fn is_word_char(c: char) -> bool {
    is_digit(c) || 'a' <= c <= 'z' || 'A' <= c <= 'Z' || c == '_'
}

impl CharClass {
    pub open spec fn holds(self, c: char) -> bool {
        match self {
            CharClass::Digit => is_digit(c),
            CharClass::HexDigit => is_hex_digit(c),
            CharClass::DigitOrDot => is_digit(c) || c == '.',
            CharClass::Word => is_word_char(c),
            CharClass::NotNewline => c != '\n',
        }
    }
}

/// The value of a digit in base 16 (and so in base 10); 0 for any other character.
pub open spec fn digit_value(c: char) -> nat {
    if is_digit(c) {
        (c as nat - '0' as nat) as nat
    } else if 'a' <= c <= 'f' {
        (c as nat - 'a' as nat + 10) as nat
    } else if 'A' <= c <= 'F' {
        (c as nat - 'A' as nat + 10) as nat
    } else {
        0
    }
}

/// The first position at or after `from` whose character is outside `class`, or the
/// length of the text when there is none.
pub open spec fn run_end(input: Seq<char>, from: int, class: CharClass) -> int
    decreases input.len() - from,
{
    if 0 <= from < input.len() && class.holds(input[from]) {
        run_end(input, from + 1, class)
    } else {
        from
    }
}

/// The number that the digits of `input` in `[from, to)` spell in the given base.
pub open spec fn number(input: Seq<char>, from: int, to: int, base: nat) -> nat
    decreases to - from,
{
    if to <= from {
        0
    } else {
        number(input, from, to - 1, base) * base + digit_value(input[to - 1])
    }
}

/// The digits of `input` in `[from, to)`, one value per place.
pub open spec fn digits(input: Seq<char>, from: int, to: int) -> Seq<u8> {
    Seq::new((to - from) as nat, |k: int| digit_value(input[from + k]) as u8)
}

/// In `[from, to)`, the position after the last `.`, or `from` when there is none.
pub open spec fn after_last_dot(input: Seq<char>, from: int, to: int) -> int
    decreases to - from,
{
    if to <= from {
        from
    } else if input[to - 1] == '.' {
        to
    } else {
        after_last_dot(input, from, to - 1)
    }
}

/// A literal that starts with `0x` is hexadecimal.
pub open spec fn is_hex_literal(input: Seq<char>, pos: int) -> bool {
    &&& pos + 1 < input.len()
    &&& input[pos] == '0'
    &&& input[pos + 1] == 'x'
}

/// The end of the leading run of digits of a decimal literal.
pub open spec fn whole_end(input: Seq<char>, pos: int) -> int {
    run_end(input, pos, CharClass::Digit)
}

/// A decimal literal has a fraction when a `.` follows its leading digits.
pub open spec fn has_fraction(input: Seq<char>, pos: int) -> bool {
    let e = whole_end(input, pos);
    e < input.len() && input[e] == '.'
}

/// Where the numeric literal that starts at `pos` ends.
///
/// A hexadecimal literal is `0x` and the hex digits that follow. A decimal literal is
/// its leading digits; with a `.` after them it runs on over digits and further `.`s.
pub open spec fn literal_end(input: Seq<char>, pos: int) -> int {
    if is_hex_literal(input, pos) {
        run_end(input, pos + 2, CharClass::HexDigit)
    } else if has_fraction(input, pos) {
        run_end(input, whole_end(input, pos), CharClass::DigitOrDot)
    } else {
        whole_end(input, pos)
    }
}

/// The integer that the literal at `pos` accumulates: the value of a hexadecimal or
/// integer literal, the part before the point otherwise.
pub open spec fn literal_magnitude(input: Seq<char>, pos: int) -> nat {
    if is_hex_literal(input, pos) {
        number(input, pos + 2, literal_end(input, pos), 16)
    } else {
        number(input, pos, whole_end(input, pos), 10)
    }
}

/// The token of the numeric literal at `pos`, for a magnitude that fits in 64 bits.
///
/// Each `.` starts the fraction anew, so the places after the point are the digits
/// behind the last `.` of the literal.
pub open spec fn literal_token(input: Seq<char>, pos: int) -> TokenView {
    let magnitude = literal_magnitude(input, pos) as u64;
    if !is_hex_literal(input, pos) && has_fraction(input, pos) {
        let end = literal_end(input, pos);
        let start = after_last_dot(input, whole_end(input, pos) + 1, end);
        TokenView::F64(DecimalView { whole: magnitude, frac: digits(input, start, end) })
    } else {
        TokenView::U64(magnitude)
    }
}

pub open spec fn is_opener(c: char) -> bool {
    c == '(' || c == '[' || c == '{'
}

pub open spec fn is_closer(c: char) -> bool {
    c == ')' || c == ']' || c == '}'
}

/// The closing bracket that an opening bracket expects.
pub open spec fn closer_of(c: char) -> char {
    if c == '(' {
        ')'
    } else if c == '[' {
        ']'
    } else {
        '}'
    }
}

/// Whether `second` stands right after position `pos`.
pub open spec fn followed_by(input: Seq<char>, pos: int, second: char) -> bool {
    pos + 1 < input.len() && input[pos + 1] == second
}

/// The token that the operator or punctuation character at `pos` starts, taking the
/// two-character operators before their one-character prefixes. `None` where the
/// character starts no operator.
pub open spec fn operator_at(input: Seq<char>, pos: int) -> Option<TokenView> {
    let c = input[pos];
    if c == '+' {
        Some(TokenView::Plus)
    } else if c == '-' {
        Some(TokenView::Minus)
    } else if c == '*' {
        Some(TokenView::Star)
    } else if c == '/' {
        Some(TokenView::Slash)
    } else if c == '%' {
        Some(TokenView::Mod)
    } else if c == '(' {
        Some(TokenView::LParen)
    } else if c == ')' {
        Some(TokenView::RParen)
    } else if c == '[' {
        Some(TokenView::LBracket)
    } else if c == ']' {
        Some(TokenView::RBracket)
    } else if c == '{' {
        Some(TokenView::LBrace)
    } else if c == '}' {
        Some(TokenView::RBrace)
    } else if c == ',' {
        Some(TokenView::Comma)
    } else if c == '.' {
        Some(TokenView::Dot)
    } else if c == ':' {
        Some(TokenView::Colon)
    } else if c == '^' {
        Some(TokenView::Xor)
    } else if c == '@' {
        Some(TokenView::At)
    } else if c == '$' {
        Some(TokenView::Cache)
    } else if c == '#' {
        Some(TokenView::Hash)
    } else if c == '=' {
        if followed_by(input, pos, '=') {
            Some(TokenView::DoubleEqual)
        } else if followed_by(input, pos, '>') {
            Some(TokenView::FatArrow)
        } else {
            Some(TokenView::Equal)
        }
    } else if c == '!' {
        if followed_by(input, pos, '=') {
            Some(TokenView::NotEqual)
        } else {
            Some(TokenView::Not)
        }
    } else if c == '<' {
        if followed_by(input, pos, '=') {
            Some(TokenView::LessThanEq)
        } else {
            Some(TokenView::LessThan)
        }
    } else if c == '>' {
        if followed_by(input, pos, '=') {
            Some(TokenView::GreatThanEq)
        } else {
            Some(TokenView::GreatThan)
        }
    } else if c == '&' {
        if followed_by(input, pos, '&') {
            Some(TokenView::LogicAnd)
        } else {
            Some(TokenView::And)
        }
    } else if c == '|' {
        if followed_by(input, pos, '|') {
            Some(TokenView::LogicOr)
        } else {
            Some(TokenView::Or)
        }
    } else {
        None
    }
}

/// The operators that take two characters.
pub open spec fn is_double(token: TokenView) -> bool {
    token is DoubleEqual || token is FatArrow || token is NotEqual || token is LessThanEq
        || token is GreatThanEq || token is LogicAnd || token is LogicOr
}

pub open spec fn is_blank(c: char) -> bool {
    c == ' ' || c == '\t'
}

/// A line comment starts with two slashes.
pub open spec fn is_comment(input: Seq<char>, pos: int) -> bool {
    input[pos] == '/' && followed_by(input, pos, '/')
}

/// Where the lexical unit that starts at `pos` ends: a blank, a line break, a comment
/// up to its line break, an operator, a numeric literal, or else a symbol, which is
/// its first character, whatever it is, and the word characters after it.
pub open spec fn unit_end(input: Seq<char>, pos: int) -> int {
    let c = input[pos];
    if is_blank(c) || c == '\n' {
        pos + 1
    } else if is_comment(input, pos) {
        run_end(input, pos + 2, CharClass::NotNewline)
    } else if operator_at(input, pos) is Some {
        if is_double(operator_at(input, pos).unwrap()) {
            pos + 2
        } else {
            pos + 1
        }
    } else if is_digit(c) {
        literal_end(input, pos)
    } else {
        run_end(input, pos + 1, CharClass::Word)
    }
}

/// The token of the unit that starts at `pos`; `None` for a blank, a line break and a
/// comment.
pub open spec fn unit_token(input: Seq<char>, pos: int) -> Option<TokenView> {
    let c = input[pos];
    if is_blank(c) || c == '\n' || is_comment(input, pos) {
        None
    } else if operator_at(input, pos) is Some {
        operator_at(input, pos)
    } else if is_digit(c) {
        Some(literal_token(input, pos))
    } else {
        Some(TokenView::Symbol(input.subrange(pos, unit_end(input, pos))))
    }
}

/// Whether the unit at `pos` is a numeric literal too large to hold.
pub open spec fn overflows_at(input: Seq<char>, pos: int) -> bool {
    is_digit(input[pos]) && literal_magnitude(input, pos) > u64::MAX
}

/// A line break separates statements: it adds a separator only outside brackets and
/// only behind a token that is not a separator itself, so that a sequence never starts
/// with a separator and never holds two in a row.
pub open spec fn after_newline(stack: Seq<char>, out: Seq<TokenView>) -> Seq<TokenView> {
    if stack.len() == 0 && out.len() > 0 && !(out.last() is Semicolon) {
        out.push(TokenView::Semicolon)
    } else {
        out
    }
}

/// A separator at the very end is taken off.
pub open spec fn without_trailing_separator(out: Seq<TokenView>) -> Seq<TokenView> {
    if out.len() > 0 && out.last() is Semicolon {
        out.drop_last()
    } else {
        out
    }
}

/// The outcome of tokenizing `input` from `pos` on, with the expected closers `stack`
/// of the brackets open so far (innermost last) and the tokens `out` produced so far.
pub open spec fn lex_from(
    input: Seq<char>,
    pos: int,
    stack: Seq<char>,
    out: Seq<TokenView>,
) -> Result<Seq<TokenView>, LexFailure>
    decreases input.len() - pos,
{
    if pos < 0 || pos >= input.len() {
        if stack.len() > 0 {
            Err(LexFailure::Unclosed { remaining: stack })
        } else {
            Ok(without_trailing_separator(out))
        }
    } else {
        let c = input[pos];
        let end = unit_end(input, pos);
        proof {
            lemma_unit_end_advances(input, pos);
        }
        if c == '\n' {
            lex_from(input, end, stack, after_newline(stack, out))
        } else if is_opener(c) {
            lex_from(
                input,
                end,
                stack.push(closer_of(c)),
                out.push(unit_token(input, pos).unwrap()),
            )
        } else if is_closer(c) {
            if stack.len() == 0 {
                Err(LexFailure::Unmatched { got: c })
            } else if stack.last() != c {
                Err(LexFailure::Mismatched { expect: stack.last(), got: c })
            } else {
                lex_from(input, end, stack.drop_last(), out.push(unit_token(input, pos).unwrap()))
            }
        } else if overflows_at(input, pos) {
            Err(LexFailure::LiteralTooLarge { at: pos })
        } else {
            match unit_token(input, pos) {
                Some(token) => lex_from(input, end, stack, out.push(token)),
                None => lex_from(input, end, stack, out),
            }
        }
    }
}

/// The token sequence of a text, or why it has none.
pub open spec fn tokenize(input: Seq<char>) -> Result<Seq<TokenView>, LexFailure> {
    lex_from(input, 0, Seq::empty(), Seq::empty())
}

/// A run ends at or after its start and within the text, every character before its
/// end is in the class, and the character at its end is not.
pub proof fn lemma_run_end(input: Seq<char>, from: int, class: CharClass)
    requires
        0 <= from <= input.len(),
    ensures
        from <= run_end(input, from, class) <= input.len(),
        forall|k: int| from <= k < run_end(input, from, class) ==> class.holds(#[trigger] input[k]),
        run_end(input, from, class) < input.len() ==> !class.holds(
            input[run_end(input, from, class)],
        ),
    decreases input.len() - from,
{
    if from < input.len() && class.holds(input[from]) {
        lemma_run_end(input, from + 1, class);
    }
}

/// Every lexical unit holds at least one character and ends within the text.
pub proof fn lemma_unit_end_advances(input: Seq<char>, pos: int)
    requires
        0 <= pos < input.len(),
    ensures
        pos < unit_end(input, pos) <= input.len(),
{
    lemma_run_end(input, pos, CharClass::Digit);
    lemma_run_end(input, pos + 1, CharClass::Word);
    if pos + 2 <= input.len() {
        lemma_run_end(input, pos + 2, CharClass::NotNewline);
        lemma_run_end(input, pos + 2, CharClass::HexDigit);
    }
    lemma_run_end(input, whole_end(input, pos), CharClass::DigitOrDot);
}

} // verus!

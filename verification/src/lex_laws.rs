//! What holds of every token sequence that tokenizing gives.

use vstd::prelude::*;
use crate::lex_model::{
    after_last_dot, after_newline, closer_of, digit_value, digits, is_blank, is_closer, is_digit,
    is_opener, lemma_run_end, lemma_unit_end_advances, lex_from, number, run_end, tokenize,
    unit_end, unit_token, CharClass, LexFailure,
};
use crate::token::{power_of_ten, DecimalView, TokenView};

verus! {

/// A token sequence is well separated when it neither starts nor ends with a statement
/// separator and holds no two separators in a row.
pub open spec fn well_separated(tokens: Seq<TokenView>) -> bool {
    &&& tokens.len() > 0 ==> !(tokens[0] is Semicolon) && !(tokens.last() is Semicolon)
    &&& forall|i: int|
        0 <= i < tokens.len() - 1 ==> !(#[trigger] tokens[i] is Semicolon && tokens[i
            + 1] is Semicolon)
}

/// As [`well_separated`], but for the separator that may still stand at the end while
/// the text is being read.
pub open spec fn separated_so_far(tokens: Seq<TokenView>) -> bool {
    &&& tokens.len() > 0 ==> !(tokens[0] is Semicolon)
    &&& forall|i: int|
        0 <= i < tokens.len() - 1 ==> !(#[trigger] tokens[i] is Semicolon && tokens[i
            + 1] is Semicolon)
}

/// No lexical unit is a statement separator: only a line break gives one.
pub proof fn lemma_unit_is_no_separator(input: Seq<char>, pos: int)
    requires
        0 <= pos < input.len(),
    ensures
        unit_token(input, pos) matches Some(token) ==> !(token is Semicolon),
{
}

/// Reading on from a state whose tokens are separated so far ends in a well separated
/// sequence.
pub proof fn lemma_lex_from_separates(
    input: Seq<char>,
    pos: int,
    stack: Seq<char>,
    out: Seq<TokenView>,
)
    requires
        0 <= pos,
        separated_so_far(out),
    ensures
        lex_from(input, pos, stack, out) matches Ok(tokens) ==> well_separated(tokens),
    decreases input.len() - pos,
{
    if pos < input.len() {
        let c = input[pos];
        let end = unit_end(input, pos);
        lemma_unit_end_advances(input, pos);
        lemma_unit_is_no_separator(input, pos);
        if c == '\n' {
            lemma_lex_from_separates(input, end, stack, after_newline(stack, out));
        } else if is_opener(c) {
            lemma_lex_from_separates(
                input,
                end,
                stack.push(closer_of(c)),
                out.push(unit_token(input, pos).unwrap()),
            );
        } else if is_closer(c) {
            if stack.len() > 0 && stack.last() == c {
                lemma_lex_from_separates(
                    input,
                    end,
                    stack.drop_last(),
                    out.push(unit_token(input, pos).unwrap()),
                );
            }
        } else {
            match unit_token(input, pos) {
                Some(token) => {
                    lemma_lex_from_separates(input, end, stack, out.push(token));
                },
                None => {
                    lemma_lex_from_separates(input, end, stack, out);
                },
            }
        }
    }
}

/// The token sequence of a text never starts or ends with a statement separator and
/// never holds two in a row.
pub proof fn lemma_tokens_are_well_separated(input: Seq<char>)
    ensures
        tokenize(input) matches Ok(tokens) ==> well_separated(tokens),
{
    lemma_lex_from_separates(input, 0, Seq::empty(), Seq::empty());
}

/// What holds of every token that the tokenizer gives: it is neither of the two kinds
/// kept for later use, and a literal with a point holds a digit in every place.
pub open spec fn is_produced(token: TokenView) -> bool {
    &&& !(token is DoubleSlash)
    &&& !(token is DELIMITER)
    &&& token matches TokenView::F64(d) ==> d.wf()
}

/// Whether [`is_produced`] holds of every token.
pub open spec fn all_produced(tokens: Seq<TokenView>) -> bool {
    forall|i: int| 0 <= i < tokens.len() ==> is_produced(#[trigger] tokens[i])
}

/// Behind the last point of a range there is no further point.
proof fn lemma_after_last_dot(input: Seq<char>, from: int, to: int)
    requires
        0 <= from <= to <= input.len(),
    ensures
        from <= after_last_dot(input, from, to) <= to,
        forall|k: int| after_last_dot(input, from, to) <= k < to ==> #[trigger] input[k] != '.',
    decreases to - from,
{
    if from < to && input[to - 1] != '.' {
        lemma_after_last_dot(input, from, to - 1);
    }
}

/// [`is_produced`] holds of the token of every lexical unit.
pub proof fn lemma_unit_is_produced(input: Seq<char>, pos: int)
    requires
        0 <= pos < input.len(),
    ensures
        unit_token(input, pos) matches Some(token) ==> is_produced(token),
{
    if is_digit(input[pos]) {
        let first = run_end(input, pos, CharClass::Digit);
        lemma_run_end(input, pos, CharClass::Digit);
        if first < input.len() && input[first] == '.' {
            let end = run_end(input, first, CharClass::DigitOrDot);
            lemma_run_end(input, first, CharClass::DigitOrDot);
            lemma_run_end(input, first + 1, CharClass::DigitOrDot);
            let start = after_last_dot(input, first + 1, end);
            lemma_after_last_dot(input, first + 1, end);
            let places = digits(input, start, end);
            assert forall|k: int| 0 <= k < places.len() implies #[trigger] places[k] <= 9 by {
                assert(CharClass::DigitOrDot.holds(input[start + k]));
                assert(input[start + k] != '.');
            }
        }
    }
}

/// Reading on from tokens of which [`is_produced`] holds ends in such tokens.
pub proof fn lemma_lex_from_produces(
    input: Seq<char>,
    pos: int,
    stack: Seq<char>,
    out: Seq<TokenView>,
)
    requires
        0 <= pos,
        all_produced(out),
    ensures
        lex_from(input, pos, stack, out) matches Ok(tokens) ==> all_produced(tokens),
    decreases input.len() - pos,
{
    if pos < input.len() {
        let c = input[pos];
        let end = unit_end(input, pos);
        lemma_unit_end_advances(input, pos);
        lemma_unit_is_produced(input, pos);
        if c == '\n' {
            lemma_lex_from_produces(input, end, stack, after_newline(stack, out));
        } else if is_opener(c) {
            lemma_lex_from_produces(
                input,
                end,
                stack.push(closer_of(c)),
                out.push(unit_token(input, pos).unwrap()),
            );
        } else if is_closer(c) {
            if stack.len() > 0 && stack.last() == c {
                lemma_lex_from_produces(
                    input,
                    end,
                    stack.drop_last(),
                    out.push(unit_token(input, pos).unwrap()),
                );
            }
        } else {
            match unit_token(input, pos) {
                Some(token) => {
                    lemma_lex_from_produces(input, end, stack, out.push(token));
                },
                None => {
                    lemma_lex_from_produces(input, end, stack, out);
                },
            }
        }
    }
}

/// The token sequence of a text holds no comment token and no delimiter token, the two
/// kinds that are kept for later use, and every literal with a point in it holds a
/// digit in every place.
pub proof fn lemma_tokens_are_produced(input: Seq<char>)
    ensures
        tokenize(input) matches Ok(tokens) ==> all_produced(tokens),
{
    lemma_lex_from_produces(input, 0, Seq::empty(), Seq::empty());
}

/// Blanks and line breaks.
pub open spec fn is_layout(c: char) -> bool {
    is_blank(c) || c == '\n'
}

/// Whether the text holds nothing but layout and brackets in `[from, to)`.
pub open spec fn only_brackets(input: Seq<char>, from: int, to: int) -> bool {
    forall|k: int|
        from <= k < to ==> is_layout(#[trigger] input[k]) || is_opener(input[k]) || is_closer(
            input[k],
        )
}

/// The expected closers of the brackets that the characters in `[from, to)` leave
/// open, innermost last; `None` where a closing bracket there meets no opening bracket
/// of the range or another than its own.
pub open spec fn pending(input: Seq<char>, from: int, to: int) -> Option<Seq<char>>
    decreases to - from,
{
    if to <= from {
        Some(Seq::empty())
    } else {
        match pending(input, from, to - 1) {
            None => None,
            Some(open) => {
                let c = input[to - 1];
                if is_opener(c) {
                    Some(open.push(closer_of(c)))
                } else if is_closer(c) {
                    if open.len() > 0 && open.last() == c {
                        Some(open.drop_last())
                    } else {
                        None
                    }
                } else {
                    Some(open)
                }
            },
        }
    }
}

/// The brackets of `[from, to)` are balanced when each closes the innermost open one
/// and none is left open.
pub open spec fn balanced(input: Seq<char>, from: int, to: int) -> bool {
    pending(input, from, to) == Some(Seq::<char>::empty())
}

pub open spec fn is_bracket_token(token: TokenView) -> bool {
    token is LParen || token is RParen || token is LBracket || token is RBracket || token is LBrace
        || token is RBrace
}

/// Whether every token is a bracket or a statement separator.
pub open spec fn only_bracket_tokens(tokens: Seq<TokenView>) -> bool {
    forall|i: int|
        0 <= i < tokens.len() ==> is_bracket_token(#[trigger] tokens[i]) || tokens[i] is Semicolon
}

/// Reading over a range of layout and brackets, none of which closes a bracket from
/// before the range, only adds the brackets that the range leaves open to the stack,
/// and brackets and separators to the tokens (the tokens afterwards are returned).
pub proof fn lemma_read_over_brackets(
    input: Seq<char>,
    from: int,
    to: int,
    stack: Seq<char>,
    out: Seq<TokenView>,
) -> (after: Seq<TokenView>)
    requires
        0 <= from <= to <= input.len(),
        only_brackets(input, from, to),
        pending(input, from, to) is Some,
    ensures
        lex_from(input, from, stack, out) == lex_from(
            input,
            to,
            stack + pending(input, from, to).unwrap(),
            after,
        ),
        only_bracket_tokens(out) ==> only_bracket_tokens(after),
    decreases to - from,
{
    if to == from {
        assert(stack + Seq::<char>::empty() =~= stack);
        out
    } else {
        let before = lemma_read_over_brackets(input, from, to - 1, stack, out);
        let open = pending(input, from, to - 1).unwrap();
        let c = input[to - 1];
        lemma_unit_end_advances(input, to - 1);
        assert(is_layout(c) || is_opener(c) || is_closer(c));
        if c == '\n' {
            after_newline(stack + open, before)
        } else if is_opener(c) {
            assert((stack + open).push(closer_of(c)) =~= stack + open.push(closer_of(c)));
            before.push(unit_token(input, to - 1).unwrap())
        } else if is_closer(c) {
            assert((stack + open).drop_last() =~= stack + open.drop_last());
            before.push(unit_token(input, to - 1).unwrap())
        } else {
            before
        }
    }
}

/// A text of layout and brackets whose brackets fail to pair up has no token sequence.
proof fn lemma_unpaired_brackets_fail(input: Seq<char>, to: int)
    requires
        0 <= to <= input.len(),
        only_brackets(input, 0, to),
        pending(input, 0, to) is None,
    ensures
        tokenize(input) is Err,
    decreases to,
{
    if pending(input, 0, to - 1) is None {
        lemma_unpaired_brackets_fail(input, to - 1);
    } else {
        let before = lemma_read_over_brackets(input, 0, to - 1, Seq::empty(), Seq::empty());
        let open = pending(input, 0, to - 1).unwrap();
        assert(Seq::<char>::empty() + open =~= open);
        lemma_unit_end_advances(input, to - 1);
    }
}

/// A text that holds nothing but layout and brackets has a token sequence exactly when
/// its brackets are balanced, and the sequence then holds no token but brackets and
/// statement separators.
pub proof fn lemma_bracket_text(input: Seq<char>)
    requires
        only_brackets(input, 0, input.len() as int),
    ensures
        tokenize(input) is Ok <==> balanced(input, 0, input.len() as int),
        tokenize(input) matches Ok(tokens) ==> only_bracket_tokens(tokens),
{
    let n = input.len() as int;
    match pending(input, 0, n) {
        None => {
            lemma_unpaired_brackets_fail(input, n);
        },
        Some(open) => {
            let after = lemma_read_over_brackets(input, 0, n, Seq::empty(), Seq::empty());
            assert(Seq::<char>::empty() + open =~= open);
            assert(only_bracket_tokens(Seq::<TokenView>::empty()));
            if open.len() == 0 {
                assert(open =~= Seq::<char>::empty());
            }
        },
    }
}

/// Behind an opening bracket and nested content of layout and balanced brackets, a
/// closing bracket other than the one that the opening bracket expects fails, whatever
/// was read before the opening bracket.
pub proof fn lemma_wrong_closer_fails(
    input: Seq<char>,
    open_at: int,
    close_at: int,
    stack: Seq<char>,
    out: Seq<TokenView>,
)
    requires
        0 <= open_at < close_at < input.len(),
        is_opener(input[open_at]),
        only_brackets(input, open_at + 1, close_at),
        balanced(input, open_at + 1, close_at),
        is_closer(input[close_at]),
        input[close_at] != closer_of(input[open_at]),
    ensures
        lex_from(input, open_at, stack, out) == Err::<Seq<TokenView>, LexFailure>(
            LexFailure::Mismatched { expect: closer_of(input[open_at]), got: input[close_at] },
        ),
{
    let expect = closer_of(input[open_at]);
    lemma_unit_end_advances(input, open_at);
    let opened = out.push(unit_token(input, open_at).unwrap());
    let after = lemma_read_over_brackets(input, open_at + 1, close_at, stack.push(expect), opened);
    assert(stack.push(expect) + Seq::<char>::empty() =~= stack.push(expect));
    lemma_unit_end_advances(input, close_at);
}

/// Behind an opening bracket and nested content of layout and balanced brackets, the
/// end of the text fails: the bracket is left open.
pub proof fn lemma_end_behind_opener_fails(
    input: Seq<char>,
    open_at: int,
    stack: Seq<char>,
    out: Seq<TokenView>,
)
    requires
        0 <= open_at < input.len(),
        is_opener(input[open_at]),
        only_brackets(input, open_at + 1, input.len() as int),
        balanced(input, open_at + 1, input.len() as int),
    ensures
        lex_from(input, open_at, stack, out) == Err::<Seq<TokenView>, LexFailure>(
            LexFailure::Unclosed { remaining: stack.push(closer_of(input[open_at])) },
        ),
{
    let expect = closer_of(input[open_at]);
    lemma_unit_end_advances(input, open_at);
    let opened = out.push(unit_token(input, open_at).unwrap());
    let after = lemma_read_over_brackets(
        input,
        open_at + 1,
        input.len() as int,
        stack.push(expect),
        opened,
    );
    assert(stack.push(expect) + Seq::<char>::empty() =~= stack.push(expect));
}

/// Behind an opening bracket and nested content of layout and balanced brackets, the
/// closing bracket that the opening bracket expects is accepted: reading goes on behind
/// it with the stack as it was before the opening bracket (the tokens then are
/// returned).
pub proof fn lemma_own_closer_is_accepted(
    input: Seq<char>,
    open_at: int,
    close_at: int,
    stack: Seq<char>,
    out: Seq<TokenView>,
) -> (after: Seq<TokenView>)
    requires
        0 <= open_at < close_at < input.len(),
        is_opener(input[open_at]),
        only_brackets(input, open_at + 1, close_at),
        balanced(input, open_at + 1, close_at),
        input[close_at] == closer_of(input[open_at]),
    ensures
        lex_from(input, open_at, stack, out) == lex_from(input, close_at + 1, stack, after),
{
    let expect = closer_of(input[open_at]);
    lemma_unit_end_advances(input, open_at);
    let opened = out.push(unit_token(input, open_at).unwrap());
    let inner = lemma_read_over_brackets(input, open_at + 1, close_at, stack.push(expect), opened);
    assert(stack.push(expect) + Seq::<char>::empty() =~= stack.push(expect));
    lemma_unit_end_advances(input, close_at);
    assert(stack.push(expect).drop_last() =~= stack);
    inner.push(unit_token(input, close_at).unwrap())
}

/// A text that starts with an opening bracket: behind nested content of layout and
/// balanced brackets, every closing bracket but its own fails as mismatched, and the
/// end of the text fails as unclosed.
pub proof fn lemma_opener_accepts_only_its_closer(input: Seq<char>, close_at: int)
    requires
        0 < close_at <= input.len(),
        is_opener(input[0]),
        only_brackets(input, 1, close_at),
        balanced(input, 1, close_at),
    ensures
        close_at < input.len() && is_closer(input[close_at]) && input[close_at] != closer_of(
            input[0],
        ) ==> tokenize(input) == Err::<Seq<TokenView>, LexFailure>(
            LexFailure::Mismatched { expect: closer_of(input[0]), got: input[close_at] },
        ),
        close_at == input.len() ==> tokenize(input) == Err::<Seq<TokenView>, LexFailure>(
            LexFailure::Unclosed { remaining: seq![closer_of(input[0])] },
        ),
{
    if close_at == input.len() {
        lemma_end_behind_opener_fails(input, 0, Seq::empty(), Seq::empty());
        assert(Seq::<char>::empty().push(closer_of(input[0])) =~= seq![closer_of(input[0])]);
    } else if is_closer(input[close_at]) && input[close_at] != closer_of(input[0]) {
        lemma_wrong_closer_fails(input, 0, close_at, Seq::empty(), Seq::empty());
    }
}

/// Whether the text holds nothing but digits in `[from, to)`.
pub open spec fn all_digits(input: Seq<char>, from: int, to: int) -> bool {
    forall|k: int| from <= k < to ==> is_digit(#[trigger] input[k])
}

/// A run over characters of its class ends where they end.
pub proof fn lemma_run_stops(input: Seq<char>, from: int, to: int, class: CharClass)
    requires
        0 <= from <= to <= input.len(),
        forall|k: int| from <= k < to ==> class.holds(#[trigger] input[k]),
        to < input.len() ==> !class.holds(input[to]),
    ensures
        run_end(input, from, class) == to,
    decreases to - from,
{
    if from < to {
        lemma_run_stops(input, from + 1, to, class);
    }
}

/// The places that a run of digits gives spell the number of the run, and each holds a
/// digit.
pub proof fn lemma_digits_spell_number(input: Seq<char>, from: int, to: int)
    requires
        0 <= from <= to <= input.len(),
        all_digits(input, from, to),
    ensures
        (DecimalView { whole: 0, frac: digits(input, from, to) }).frac_number() == number(
            input,
            from,
            to,
            10,
        ),
        (DecimalView { whole: 0, frac: digits(input, from, to) }).wf(),
    decreases to - from,
{
    if from < to {
        lemma_digits_spell_number(input, from, to - 1);
        assert(digits(input, from, to).drop_last() =~= digits(input, from, to - 1));
        assert(is_digit(input[to - 1]));
    }
}

/// A text of digits alone is one integer literal: its token carries the number that
/// the digits spell in base ten, and the text has no token sequence when that number
/// does not fit in 64 bits.
pub proof fn lemma_integer_literal(input: Seq<char>)
    requires
        input.len() > 0,
        all_digits(input, 0, input.len() as int),
    ensures
        number(input, 0, input.len() as int, 10) <= u64::MAX ==> tokenize(input) == Ok::<
            Seq<TokenView>,
            LexFailure,
        >(seq![TokenView::U64(number(input, 0, input.len() as int, 10) as u64)]),
        number(input, 0, input.len() as int, 10) > u64::MAX ==> tokenize(input) == Err::<
            Seq<TokenView>,
            LexFailure,
        >(LexFailure::LiteralTooLarge { at: 0 }),
{
    let n = input.len() as int;
    assert(is_digit(input[0]));
    assert(n > 1 ==> is_digit(input[1]));
    lemma_run_stops(input, 0, n, CharClass::Digit);
    let token = TokenView::U64(number(input, 0, n, 10) as u64);
    assert(Seq::<TokenView>::empty().push(token) =~= seq![token]);
    assert(lex_from(input, n, Seq::empty(), seq![token]) == Ok::<Seq<TokenView>, LexFailure>(
        seq![token],
    ));
}

/// The number of a run of digits is the number of its front part, shifted by the
/// length of its back part, plus the number of its back part.
pub proof fn lemma_number_joins(input: Seq<char>, from: int, mid: int, to: int)
    requires
        0 <= from <= mid <= to <= input.len(),
    ensures
        number(input, from, to, 10) == number(input, from, mid, 10) * power_of_ten(
            (to - mid) as nat,
        ) + number(input, mid, to, 10),
    decreases to - mid,
{
    let front = number(input, from, mid, 10);
    if mid < to {
        lemma_number_joins(input, from, mid, to - 1);
        let shift = power_of_ten((to - 1 - mid) as nat);
        let back = number(input, mid, to - 1, 10);
        let last = digit_value(input[to - 1]);
        let whole_shift = power_of_ten((to - mid) as nat);
        assert(whole_shift == shift * 10);
        assert(number(input, from, to, 10) == (front * shift + back) * 10 + last);
        assert(number(input, mid, to, 10) == back * 10 + last);
        assert((front * shift + back) * 10 + last == front * whole_shift + (back * 10 + last))
            by (nonlinear_arith)
            requires
                whole_shift == shift * 10,
        ;
    } else {
        let unit = power_of_ten((to - mid) as nat);
        assert(unit == 1);
        assert(number(input, mid, to, 10) == 0);
        assert(front * unit == front) by (nonlinear_arith)
            requires
                unit == 1,
        ;
    }
}

/// The number of a run depends on its characters alone, not on where they stand.
pub proof fn lemma_number_of_same_digits(
    a: Seq<char>,
    from_a: int,
    b: Seq<char>,
    from_b: int,
    n: int,
)
    requires
        0 <= n,
        forall|i: int| from_a <= i < from_a + n ==> #[trigger] a[i] == b[i - from_a + from_b],
    ensures
        number(a, from_a, from_a + n, 10) == number(b, from_b, from_b + n, 10),
    decreases n,
{
    if n > 0 {
        lemma_number_of_same_digits(a, from_a, b, from_b, n - 1);
        assert(a[from_a + n - 1] == b[from_a + n - 1 - from_a + from_b]);
    }
}

/// A text of digits, a point and digits is one literal with a point: its token carries
/// the number before the point and the digits behind it, place by place, which spell
/// the number behind the point. The text has no token sequence when the number before
/// the point does not fit in 64 bits.
pub proof fn lemma_point_literal(input: Seq<char>, point: int)
    requires
        0 < point < input.len(),
        all_digits(input, 0, point),
        input[point] == '.',
        all_digits(input, point + 1, input.len() as int),
    ensures
        number(input, 0, point, 10) <= u64::MAX ==> tokenize(input) == Ok::<
            Seq<TokenView>,
            LexFailure,
        >(
            seq![
                TokenView::F64(
                    DecimalView {
                        whole: number(input, 0, point, 10) as u64,
                        frac: digits(input, point + 1, input.len() as int),
                    },
                ),
            ],
        ),
        number(input, 0, point, 10) > u64::MAX ==> tokenize(input) == Err::<
            Seq<TokenView>,
            LexFailure,
        >(LexFailure::LiteralTooLarge { at: 0 }),
        (DecimalView { whole: 0, frac: digits(input, point + 1, input.len() as int) }).wf(),
        (DecimalView {
            whole: 0,
            frac: digits(input, point + 1, input.len() as int),
        }).frac_number() == number(input, point + 1, input.len() as int, 10),
        number(input, 0, point, 10) <= u64::MAX ==> (DecimalView {
            whole: number(input, 0, point, 10) as u64,
            frac: digits(input, point + 1, input.len() as int),
        }).scaled_value() == number(input.remove(point), 0, input.len() - 1, 10),
{
    let n = input.len() as int;
    let joined = input.remove(point);
    lemma_number_joins(joined, 0, point, n - 1);
    lemma_number_of_same_digits(joined, 0, input, 0, point);
    lemma_number_of_same_digits(joined, point, input, point + 1, n - 1 - point);
    assert(is_digit(input[0]));
    assert(point > 1 ==> is_digit(input[1]));
    lemma_run_stops(input, 0, point, CharClass::Digit);
    assert forall|k: int| point <= k < n implies CharClass::DigitOrDot.holds(
        #[trigger] input[k],
    ) by {
        if k > point {
            assert(is_digit(input[k]));
        }
    }
    lemma_run_stops(input, point, n, CharClass::DigitOrDot);
    lemma_no_further_point(input, point + 1, n);
    lemma_digits_spell_number(input, point + 1, n);
    let token = TokenView::F64(
        DecimalView {
            whole: number(input, 0, point, 10) as u64,
            frac: digits(input, point + 1, n),
        },
    );
    assert(Seq::<TokenView>::empty().push(token) =~= seq![token]);
    assert(lex_from(input, n, Seq::empty(), seq![token]) == Ok::<Seq<TokenView>, LexFailure>(
        seq![token],
    ));
}

/// Among digits there is no point, so the fraction starts where the digits do.
proof fn lemma_no_further_point(input: Seq<char>, from: int, to: int)
    requires
        0 <= from <= to <= input.len(),
        all_digits(input, from, to),
    ensures
        after_last_dot(input, from, to) == from,
    decreases to - from,
{
    if from < to {
        assert(is_digit(input[to - 1]));
        lemma_no_further_point(input, from, to - 1);
    }
}

} // verus!

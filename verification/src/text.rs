//! Texts: comparing them by their characters, and writing numbers into them.

use vstd::prelude::*;
use vstd::std_specs::iter::IteratorSpec;

verus! {

/// The text of a digit.
pub open spec fn digit_text(d: nat) -> Seq<char> {
    if d == 0 {
        "0"@
    } else if d == 1 {
        "1"@
    } else if d == 2 {
        "2"@
    } else if d == 3 {
        "3"@
    } else if d == 4 {
        "4"@
    } else if d == 5 {
        "5"@
    } else if d == 6 {
        "6"@
    } else if d == 7 {
        "7"@
    } else if d == 8 {
        "8"@
    } else {
        "9"@
    }
}

/// A number written in base ten, without leading zeros.
pub open spec fn decimal_text(n: nat) -> Seq<char>
    decreases n,
{
    if n < 10 {
        digit_text(n)
    } else {
        decimal_text(n / 10) + digit_text(n % 10)
    }
}

/// The text of the digit `d`.
fn digit_str(d: u64) -> (text: &'static str)
    requires
        d < 10,
    ensures
        text@ == digit_text(d as nat),
{
    if d == 0 {
        "0"
    } else if d == 1 {
        "1"
    } else if d == 2 {
        "2"
    } else if d == 3 {
        "3"
    } else if d == 4 {
        "4"
    } else if d == 5 {
        "5"
    } else if d == 6 {
        "6"
    } else if d == 7 {
        "7"
    } else if d == 8 {
        "8"
    } else {
        "9"
    }
}

/// Appends `n`, written in base ten, to `out`.
pub fn push_decimal(out: &mut String, n: u64)
    ensures
        final(out)@ == old(out)@ + decimal_text(n as nat),
    decreases n,
{
    if n >= 10 {
        push_decimal(out, n / 10);
    }
    out.append(digit_str(n % 10));
    assert(out@ =~= old(out)@ + decimal_text(n as nat));
}

/// Whether two texts hold the same characters.
pub fn same_text(a: &str, b: &str) -> (same: bool)
    ensures
        same == (a@ == b@),
{
    let mut rest = b.chars();
    for c in it: a.chars()
        invariant
            it.seq() == a@,
            it.index() <= b@.len(),
            rest.remaining() == b@.skip(it.index()),
            a@.take(it.index()) == b@.take(it.index()),
    {
        match rest.next() {
            Some(d) => {
                if c != d {
                    return false;
                }
            },
            None => {
                return false;
            },
        }
    }
    let done = rest.next().is_none();
    proof {
        assert(a@.take(a@.len() as int) =~= a@);
        if done {
            assert(b@.skip(a@.len() as int).len() == 0);
            assert(b@.take(a@.len() as int) =~= b@);
        } else {
            assert(b@.len() > a@.len());
        }
    }
    done
}

} // verus!

//! Names derived from registry identifiers: case conversions and decimal numbers.
use vstd::prelude::*;

use heck::{ToShoutySnakeCase, ToUpperCamelCase};

verus! {

/// What `heck::ToShoutySnakeCase::to_shouty_snake_case` makes of a text:
/// its words, upper-cased and joined by underscores.
pub uninterp spec fn shouty_snake_case(text: Seq<char>) -> Seq<char>;

/// What `heck::ToUpperCamelCase::to_upper_camel_case` makes of a text: its
/// words, each capitalised, joined without separator.
pub uninterp spec fn upper_camel_case(text: Seq<char>) -> Seq<char>;

/// Calls `heck::ToShoutySnakeCase::to_shouty_snake_case`. Trusted: the result
/// is the named conversion of the text (it depends on the text alone).
#[verifier::external_body]
pub(crate) fn to_shouty_snake_case(text: &str) -> (r: String)
    ensures
        r@ == shouty_snake_case(text@),
{
    text.to_shouty_snake_case()
}

/// Calls `heck::ToUpperCamelCase::to_upper_camel_case`. Trusted: the result is
/// the named conversion of the text (it depends on the text alone).
#[verifier::external_body]
pub(crate) fn to_upper_camel_case(text: &str) -> (r: String)
    ensures
        r@ == upper_camel_case(text@),
{
    text.to_upper_camel_case()
}

/// The decimal digit for `d`.
pub open spec fn digit_char(d: nat) -> char {
    if d == 0 {
        '0'
    } else if d == 1 {
        '1'
    } else if d == 2 {
        '2'
    } else if d == 3 {
        '3'
    } else if d == 4 {
        '4'
    } else if d == 5 {
        '5'
    } else if d == 6 {
        '6'
    } else if d == 7 {
        '7'
    } else if d == 8 {
        '8'
    } else {
        '9'
    }
}

/// The decimal notation of `n`, without leading zeros.
pub open spec fn decimal(n: nat) -> Seq<char>
    decreases n,
{
    if n < 10 {
        seq![digit_char(n)]
    } else {
        decimal(n / 10).push(digit_char(n % 10))
    }
}

/// Appends the digit `d` to `s`.
fn push_digit(s: &mut String, d: u8)
    requires
        d < 10,
    ensures
        final(s)@ == old(s)@.push(digit_char(d as nat)),
{
    if d == 0 {
        proof {
            reveal_strlit("0");
        }
        s.append("0");
    } else if d == 1 {
        proof {
            reveal_strlit("1");
        }
        s.append("1");
    } else if d == 2 {
        proof {
            reveal_strlit("2");
        }
        s.append("2");
    } else if d == 3 {
        proof {
            reveal_strlit("3");
        }
        s.append("3");
    } else if d == 4 {
        proof {
            reveal_strlit("4");
        }
        s.append("4");
    } else if d == 5 {
        proof {
            reveal_strlit("5");
        }
        s.append("5");
    } else if d == 6 {
        proof {
            reveal_strlit("6");
        }
        s.append("6");
    } else if d == 7 {
        proof {
            reveal_strlit("7");
        }
        s.append("7");
    } else if d == 8 {
        proof {
            reveal_strlit("8");
        }
        s.append("8");
    } else {
        proof {
            reveal_strlit("9");
        }
        s.append("9");
    }
}

/// Appends the decimal notation of `n` to `s`.
pub fn push_decimal(s: &mut String, n: u8)
    ensures
        final(s)@ == old(s)@ + decimal(n as nat),
    decreases n,
{
    if n < 10 {
        push_digit(s, n);
    } else {
        push_decimal(s, n / 10);
        push_digit(s, n % 10);
        assert(final(s)@ =~= old(s)@ + decimal(n as nat)) by {
            assert(decimal(n as nat) == decimal((n / 10) as nat).push(digit_char((n % 10) as nat)));
        }
    }
}

} // verus!

//! Laws of numbers in decimal.

use vstd::prelude::*;

verus! {

/// The digits are in order, from zero to nine.
pub proof fn digits_are_in_order(d: nat)
    requires
        d < 10,
    ensures
        super::digit(d) as int == 48 + d,
        '0' <= super::digit(d) <= '9',
{
}

/// A number in decimal is its last digit after the number without it; a number of one digit is the
/// digit.
pub proof fn decimals_end_in_the_last_digit(n: nat, d: nat)
    requires
        d < 10,
    ensures
        super::decimal(d).len() == 1,
        super::decimal(d)[0] as int == 48 + d,
        n > 0 ==> super::decimal(10 * n + d).len() == super::decimal(n).len() + 1,
        n > 0 ==> super::decimal(10 * n + d).drop_last() == super::decimal(n),
        n > 0 ==> super::decimal(10 * n + d).last() as int == 48 + d,
{
    if n > 0 {
        let more = super::decimal(10 * n + d);
        assert((10 * n + d) / 10 == n && (10 * n + d) % 10 == d);
        assert(more.drop_last() =~= super::decimal(n));
    }
}

/// A number in decimal has no zero in front, but for zero itself.
pub proof fn decimals_have_no_zero_in_front(n: nat)
    requires
        n > 0,
    ensures
        super::decimal(n).len() > 0,
        super::decimal(n)[0] != '0',
    decreases n,
{
    if n >= 10 {
        decimals_have_no_zero_in_front(n / 10);
    }
}

/// A negative number has a minus sign in front of its digits; no other one has.
pub proof fn negative_numbers_have_a_sign(n: nat)
    ensures
        super::signed_decimal(n as int) == super::decimal(n),
        n > 0 ==> super::signed_decimal(-n) == seq!['-'] + super::decimal(n),
{
    reveal_strlit("-");
    assert("-"@ =~= seq!['-']);
}

} // verus!

//! What a size reads as: the number of bytes in the unit that fits it, to the nearest
//! tenth.

use vstd::prelude::*;

use crate::text::decimal;
use crate::tracker::ui::{as_double, double_step, human_size_text, round_half_even};

verus! {

/// `n` units of `den` come nearest to `num`: no other whole number of units is nearer,
/// and of two as near the even one is taken.
pub open spec fn is_nearest(num: nat, den: nat, n: nat) -> bool {
    &&& -(den as int) <= 2 * (num - n * den) <= den
    &&& 2 * (num - n * den) == den || 2 * (num - n * den) == -(den as int) ==> n % 2 == 0
}

/// Rounding gives the nearest whole number.
pub proof fn law_rounding_is_to_the_nearest(num: nat, den: nat)
    requires
        den > 0,
    ensures
        is_nearest(num, den, round_half_even(num, den)),
{
    let q = num / den;
    let r = num % den;
    vstd::arithmetic::div_mod::lemma_fundamental_div_mod(num as int, den as int);
    assert(num == den * q + r);
    assert(den * q == q * den) by (nonlinear_arith);
    assert((q + 1) * den == q * den + den) by (nonlinear_arith);
    assert(0 <= r < den) by (nonlinear_arith)
        requires
            r == num % den,
            den > 0,
    ;
}

/// The text is this number of bytes in a unit, to the nearest tenth, and the unit.
pub open spec fn reads_in_unit(text: Seq<char>, v: nat, unit: nat, name: Seq<char>) -> bool {
    exists|tenths: nat|
        is_nearest(10 * v, unit, tenths) && text == #[trigger] in_tenths(tenths) + name
}

/// A number of tenths, with a point in front of the last digit.
pub open spec fn in_tenths(tenths: nat) -> Seq<char> {
    decimal(tenths / 10) + seq!['.'] + decimal(tenths % 10)
}

/// A size below 1024 bytes is given in bytes; any other in the largest of the units of
/// 1024, 1024 times 1024 bytes and so on, up to the fourth, that is no larger than the
/// size, to the nearest tenth. Sizes that do not fit into the 53 binary digits of a
/// double-precision number are rounded to one first.
pub proof fn law_size_is_in_its_unit(bytes: nat)
    ensures
        ({
            let v = as_double(bytes);
            let text = human_size_text(bytes);
            &&& v < 1024 ==> text == decimal(bytes) + " B"@
            &&& 1024 <= v < 1_048_576 ==> reads_in_unit(text, v, 1024, " KB"@)
            &&& 1_048_576 <= v < 1_073_741_824 ==> reads_in_unit(text, v, 1_048_576, " MB"@)
            &&& 1_073_741_824 <= v < 1_099_511_627_776 ==> reads_in_unit(
                text,
                v,
                1_073_741_824,
                " GB"@,
            )
            &&& 1_099_511_627_776 <= v ==> reads_in_unit(text, v, 1_099_511_627_776, " TB"@)
        }),
{
    reveal_strlit(".");
    assert("."@ =~= seq!['.']);
    let v = as_double(bytes);
    lemma_reads(v, 1024);
    lemma_reads(v, 1_048_576);
    lemma_reads(v, 1_073_741_824);
    lemma_reads(v, 1_099_511_627_776);
}

/// The tenths of a unit, rounded, are nearest.
proof fn lemma_reads(v: nat, unit: nat)
    requires
        unit > 0,
    ensures
        is_nearest(10 * v, unit, round_half_even(10 * v, unit)),
        in_tenths(round_half_even(10 * v, unit)).len() > 0,
{
    law_rounding_is_to_the_nearest(10 * v, unit);
}

/// A whole number below two to the 53rd is a double-precision number; the others are
/// as far apart as their 53 highest binary digits allow, and a number is rounded to
/// the nearest of them.
pub proof fn law_double_precision(n: nat)
    ensures
        n < 0x20_0000_0000_0000 ==> as_double(n) == n,
        double_step(n) > 0,
        n < 0x20_0000_0000_0000 * double_step(n),
        n >= 0x20_0000_0000_0000 ==> n >= 0x10_0000_0000_0000 * double_step(n),
        is_nearest(n, double_step(n), round_half_even(n, double_step(n))),
        as_double(n) == round_half_even(n, double_step(n)) * double_step(n),
{
    lemma_double_step(n);
    law_rounding_is_to_the_nearest(n, double_step(n));
    if n < 0x20_0000_0000_0000 {
        assert(n / 1 == n && n % 1 == 0);
        assert(round_half_even(n, 1) == n);
    }
}

/// How far apart the double-precision numbers are.
proof fn lemma_double_step(n: nat)
    ensures
        double_step(n) > 0,
        n < 0x20_0000_0000_0000 * double_step(n),
        n >= 0x20_0000_0000_0000 ==> n >= 0x10_0000_0000_0000 * double_step(n),
        n < 0x20_0000_0000_0000 ==> double_step(n) == 1,
    decreases n,
{
    if n >= 0x20_0000_0000_0000 {
        lemma_double_step(n / 2);
    }
}

} // verus!

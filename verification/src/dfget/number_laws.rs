//! What the comparison of versions is for: versions that are written as numbers and
//! dots are ordered by their numbers.

use vstd::prelude::*;

use crate::dfget::version::{
    agree_before, component, component_at, components, components_of, is_digit, larger_at,
    leading_digits, newer, number_of, split_on, unprefixed, version_newer,
};
use crate::text::{
    decimal, first_of, lemma_first_of, trimmed, trimmed_end, trimmed_start,
};

verus! {

/// Numbers, written in decimal notation with dots between them.
pub open spec fn dotted(numbers: Seq<nat>) -> Seq<char>
    decreases numbers.len(),
{
    if numbers.len() <= 1 {
        decimal(numbers[0])
    } else {
        decimal(numbers[0]) + seq!['.'] + dotted(numbers.drop_first())
    }
}

/// The numbers fit into 64 bits.
pub open spec fn all_fit(numbers: Seq<nat>) -> bool {
    forall|i: int| 0 <= i < numbers.len() ==> #[trigger] numbers[i] <= u64::MAX
}

/// The number at position `i`, nought where there is none.
pub open spec fn number_at(numbers: Seq<nat>, i: int) -> nat {
    if 0 <= i < numbers.len() {
        numbers[i]
    } else {
        0
    }
}

/// A version of numbers is newer than another exactly if its number is the larger one
/// in the first place in which they differ; numbers that are missing at the end are
/// noughts. It makes no difference whether a v stands in front of either.
pub proof fn law_newer_compares_numbers(a: Seq<nat>, b: Seq<nat>)
    requires
        a.len() > 0,
        b.len() > 0,
        all_fit(a),
        all_fit(b),
    ensures
        version_newer(dotted(a), dotted(b)) <==> exists|i: int|
            i >= 0 && #[trigger] number_at(a, i) > number_at(b, i) && forall|j: int|
                0 <= j < i ==> #[trigger] number_at(a, j) == number_at(b, j),
        version_newer(seq!['v'] + dotted(a), dotted(b)) == version_newer(dotted(a), dotted(b)),
        version_newer(dotted(a), seq!['v'] + dotted(b)) == version_newer(dotted(a), dotted(b)),
{
    law_numbers_are_the_components(a);
    law_numbers_are_the_components(b);
    assert forall|i: int| #[trigger] number_at(a, i) == component_at(a, i) by {}
    assert forall|i: int| #[trigger] number_at(b, i) == component_at(b, i) by {}
    if newer(a, b) {
        let i = choose|i: int| larger_at(a, b, i);
        assert(number_at(a, i) > number_at(b, i));
        assert forall|j: int| 0 <= j < i implies #[trigger] number_at(a, j) == number_at(b, j) by {
            assert(component_at(a, j) == component_at(b, j));
        }
    }
    if exists|i: int|
        i >= 0 && #[trigger] number_at(a, i) > number_at(b, i) && forall|j: int|
            0 <= j < i ==> #[trigger] number_at(a, j) == number_at(b, j) {
        let i = choose|i: int|
            i >= 0 && #[trigger] number_at(a, i) > number_at(b, i) && forall|j: int|
                0 <= j < i ==> #[trigger] number_at(a, j) == number_at(b, j);
        assert(agree_before(a, b, i)) by {
            assert forall|j: int| 0 <= j < i implies #[trigger] component_at(a, j) == component_at(
                b,
                j,
            ) by {
                assert(number_at(a, j) == number_at(b, j));
            }
        }
        assert(larger_at(a, b, i));
    }
}

/// The components of a version of numbers are the numbers, also with a v in front,
/// and with white space around it.
pub proof fn law_numbers_are_the_components(numbers: Seq<nat>)
    requires
        numbers.len() > 0,
        all_fit(numbers),
    ensures
        components(dotted(numbers)) == numbers,
        components(seq!['v'] + dotted(numbers)) == numbers,
        components(seq![' '] + dotted(numbers) + seq!['\n']) == numbers,
{
    let s = dotted(numbers);
    lemma_dotted(numbers);
    assert(trimmed_start(s) == s);
    assert(trimmed_end(s) == s);
    assert(unprefixed(s) == s);
    let v = seq!['v'] + s;
    assert(v[0] == 'v' && v.last() == s.last());
    assert(trimmed_start(v) == v);
    assert(trimmed_end(v) == v);
    assert(v.drop_first() =~= s);
    assert(unprefixed(v) == unprefixed(s));
    let w = seq![' '] + s + seq!['\n'];
    let x = s + seq!['\n'];
    assert(w[0] == ' ');
    assert(w.drop_first() =~= x);
    assert(x[0] == s[0]);
    assert(trimmed_start(x) == x);
    assert(x.last() == '\n');
    assert(x.drop_last() =~= s);
    assert(trimmed_end(x) == trimmed_end(s));
    assert(trimmed(w) == s);
}

/// A version of numbers starts and ends with a digit, and its components are the
/// numbers.
proof fn lemma_dotted(numbers: Seq<nat>)
    requires
        numbers.len() > 0,
        all_fit(numbers),
    ensures
        dotted(numbers).len() > 0,
        is_digit(dotted(numbers)[0]),
        is_digit(dotted(numbers).last()),
        components_of(dotted(numbers)) == numbers,
    decreases numbers.len(),
{
    let d = decimal(numbers[0]);
    let s = dotted(numbers);
    lemma_component(numbers[0]);
    assert(is_digit(d[0]) && is_digit(d[d.len() - 1]));
    lemma_first_of(s, '.');
    let n = first_of(s, '.');
    if numbers.len() == 1 {
        if n < s.len() {
            assert(is_digit(s[n]));
        }
        assert(split_on(s, '.') =~= seq![s]);
        assert(components_of(s) =~= numbers);
    } else {
        let rest = numbers.drop_first();
        assert(all_fit(rest)) by {
            assert forall|i: int| 0 <= i < rest.len() implies #[trigger] rest[i] <= u64::MAX by {
                assert(rest[i] == numbers[i + 1]);
            }
        }
        lemma_dotted(rest);
        assert(s[d.len() as int] == '.');
        assert(n == d.len()) by {
            if n < d.len() {
                assert(s[n] == d[n]);
                assert(is_digit(d[n]));
            }
        }
        assert(s.take(n) =~= d);
        assert(s.skip(n + 1) =~= dotted(rest));
        assert(s[0] == d[0]);
        assert(s.last() == dotted(rest).last());
        assert(components_of(s) =~= seq![component(d)] + components_of(dotted(rest)));
        assert(numbers =~= seq![numbers[0]] + rest);
    }
}

/// A number that fits is the component that its digits write.
proof fn lemma_component(n: nat)
    requires
        n <= u64::MAX,
    ensures
        component(decimal(n)) == n,
        decimal(n).len() > 0,
        forall|i: int| 0 <= i < decimal(n).len() ==> is_digit(#[trigger] decimal(n)[i]),
{
    lemma_number_of(n);
    lemma_all_digits(decimal(n));
}

/// A text of digits is its own leading digits.
proof fn lemma_all_digits(s: Seq<char>)
    requires
        forall|i: int| 0 <= i < s.len() ==> is_digit(#[trigger] s[i]),
    ensures
        leading_digits(s) == s,
    decreases s.len(),
{
    if s.len() > 0 {
        let rest = s.drop_first();
        assert forall|i: int| 0 <= i < rest.len() implies is_digit(#[trigger] rest[i]) by {
            assert(rest[i] == s[i + 1]);
        }
        assert(is_digit(s[0]));
        lemma_all_digits(rest);
        assert(seq![s[0]] + rest =~= s);
    } else {
        assert(s =~= Seq::empty());
    }
}

/// The digits of a number write the number.
proof fn lemma_number_of(n: nat)
    ensures
        number_of(decimal(n)) == n,
        decimal(n).len() > 0,
        forall|i: int| 0 <= i < decimal(n).len() ==> is_digit(#[trigger] decimal(n)[i]),
    decreases n,
{
    let d = decimal(n);
    if n < 10 {
        assert(d.drop_last() =~= Seq::<char>::empty());
        assert(number_of(d.drop_last()) == 0);
    } else {
        lemma_number_of(n / 10);
        assert(d.drop_last() =~= decimal(n / 10));
        assert forall|i: int| 0 <= i < d.len() implies is_digit(#[trigger] d[i]) by {
            if i < d.len() - 1 {
                assert(d[i] == decimal(n / 10)[i]);
            }
        }
    }
}

/// A component with more digits than 64 bits hold counts as nought.
pub proof fn law_oversized_component(n: nat)
    ensures
        n > u64::MAX ==> component(decimal(n)) == 0,
        n <= u64::MAX ==> component(decimal(n)) == n,
{
    lemma_number_of(n);
    lemma_all_digits(decimal(n));
}

} // verus!

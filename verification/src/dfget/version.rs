//! Version numbers as dfget compares them: dot-separated numeric components, of
//! which a leading "v" and any non-numeric suffix are ignored and missing
//! trailing ones are zero.

use vstd::prelude::*;

use crate::text::{chars_of, find_from, first_of, trim, trimmed};

verus! {

/// A version without the letters v in front of it.
pub open spec fn unprefixed(s: Seq<char>) -> Seq<char>
    decreases s.len(),
{
    if s.len() > 0 && (s[0] == 'v' || s[0] == 'V') {
        unprefixed(s.drop_first())
    } else {
        s
    }
}

/// The pieces of a text between the occurrences of `c`.
pub open spec fn split_on(s: Seq<char>, c: char) -> Seq<Seq<char>>
    decreases s.len(),
{
    let n = first_of(s, c);
    if 0 <= n < s.len() {
        seq![s.take(n)] + split_on(s.skip(n + 1), c)
    } else {
        seq![s]
    }
}

/// A decimal digit.
pub open spec fn is_digit(c: char) -> bool {
    '0' <= c && c <= '9'
}

/// The digits that start a text.
pub open spec fn leading_digits(s: Seq<char>) -> Seq<char>
    decreases s.len(),
{
    if s.len() > 0 && is_digit(s[0]) {
        seq![s[0]] + leading_digits(s.drop_first())
    } else {
        Seq::empty()
    }
}

/// The number that decimal digits write; zero without any.
pub open spec fn number_of(digits: Seq<char>) -> nat
    decreases digits.len(),
{
    if digits.len() == 0 {
        0
    } else {
        number_of(digits.drop_last()) * 10 + (digits.last() as nat - '0' as nat) as nat
    }
}

/// The number of one component: that of its leading digits, and zero where they
/// are too many for 64 bits.
pub open spec fn component(part: Seq<char>) -> nat {
    let n = number_of(leading_digits(part));
    if n <= u64::MAX {
        n
    } else {
        0
    }
}

/// The components between the dots of a text.
pub open spec fn components_of(s: Seq<char>) -> Seq<nat> {
    split_on(s, '.').map_values(|part: Seq<char>| component(part))
}

/// The components of a version.
pub open spec fn components(s: Seq<char>) -> Seq<nat> {
    components_of(unprefixed(trimmed(s)))
}

/// The component at position `i`, zero past the last one.
pub open spec fn component_at(v: Seq<nat>, i: int) -> nat {
    if 0 <= i < v.len() {
        v[i]
    } else {
        0
    }
}

/// The two lists of components agree in front of position `i`.
pub open spec fn agree_before(a: Seq<nat>, b: Seq<nat>, i: int) -> bool {
    forall|j: int| 0 <= j < i ==> #[trigger] component_at(a, j) == component_at(b, j)
}

/// Position `i` is the first in which `a` and `b` differ, and `a` is larger there.
pub open spec fn larger_at(a: Seq<nat>, b: Seq<nat>, i: int) -> bool {
    0 <= i && component_at(a, i) > component_at(b, i) && agree_before(a, b, i)
}

/// The components `a` stand for a newer version than `b`.
pub open spec fn newer(a: Seq<nat>, b: Seq<nat>) -> bool {
    exists|i: int| #[trigger] larger_at(a, b, i)
}

/// The version `remote` is newer than `current`.
pub open spec fn version_newer(remote: Seq<char>, current: Seq<char>) -> bool {
    newer(components(remote), components(current))
}

/// The numbers of a list as naturals.
pub open spec fn as_nats(v: Seq<u64>) -> Seq<nat> {
    v.map_values(|n: u64| n as nat)
}

/// A prefix of digits writes a number no larger than the whole.
proof fn lemma_number_grows(digits: Seq<char>, i: int)
    requires
        0 <= i <= digits.len(),
        forall|j: int| 0 <= j < digits.len() ==> is_digit(#[trigger] digits[j]),
    ensures
        number_of(digits.take(i)) <= number_of(digits),
    decreases digits.len(),
{
    if i == digits.len() {
        assert(digits.take(i) =~= digits);
    } else {
        lemma_number_grows(digits.drop_last(), i);
        assert(digits.drop_last().take(i) =~= digits.take(i));
    }
}

/// The leading digits are a prefix of the text, made of digits.
proof fn lemma_leading_digits(s: Seq<char>, n: int)
    requires
        0 <= n <= s.len(),
        forall|j: int| 0 <= j < n ==> is_digit(#[trigger] s[j]),
        n == s.len() || !is_digit(s[n]),
    ensures
        leading_digits(s) == s.take(n),
    decreases n,
{
    if n > 0 {
        assert(is_digit(s[0]));
        let rest = s.drop_first();
        assert forall|j: int| 0 <= j < n - 1 implies is_digit(#[trigger] rest[j]) by {
            assert(rest[j] == s[j + 1]);
        }
        lemma_leading_digits(rest, n - 1);
        assert(seq![s[0]] + rest.take(n - 1) =~= s.take(n));
    } else {
        assert(s.take(0) =~= Seq::<char>::empty());
    }
}

/// The number of the component that stands in `v` from `from` up to `to`.
fn read_component(v: &Vec<char>, from: usize, to: usize) -> (n: u64)
    requires
        from <= to <= v.len(),
    ensures
        n == component(v@.subrange(from as int, to as int)),
{
    let ghost part = v@.subrange(from as int, to as int);
    let mut end: usize = from;
    while end < to && '0' <= v[end] && v[end] <= '9'
        invariant
            from <= end <= to <= v.len(),
            part == v@.subrange(from as int, to as int),
            forall|j: int| 0 <= j < end - from ==> is_digit(#[trigger] part[j]),
        decreases to - end,
    {
        assert(part[end - from] == v@[end as int]);
        end += 1;
    }
    proof {
        if end < to {
            assert(part[end - from] == v@[end as int]);
        }
        lemma_leading_digits(part, end - from);
    }
    let ghost digits = part.take(end - from);
    let mut n: u64 = 0;
    let mut i: usize = from;
    assert(digits.take(0) =~= Seq::<char>::empty());
    while i < end
        invariant
            from <= i <= end <= to <= v.len(),
            part == v@.subrange(from as int, to as int),
            digits == part.take(end - from),
            leading_digits(part) == digits,
            forall|j: int| 0 <= j < digits.len() ==> is_digit(#[trigger] digits[j]),
            n == number_of(digits.take(i - from)),
        decreases end - i,
    {
        assert(digits[i - from] == v@[i as int]);
        assert(is_digit(v@[i as int]));
        let ghost next = digits.take(i + 1 - from);
        assert(next.drop_last() =~= digits.take(i - from));
        assert(next.last() == v@[i as int]);
        proof {
            lemma_number_grows(digits, i + 1 - from);
        }
        let d: u64 = (v[i] as u32 - 48) as u64;
        match n.checked_mul(10) {
            Some(tens) => match tens.checked_add(d) {
                Some(sum) => {
                    n = sum;
                },
                None => {
                    return 0;
                },
            },
            None => {
                return 0;
            },
        }
        i += 1;
    }
    assert(digits.take(end - from) =~= digits);
    n
}

/// The components of a version.
fn parse(s: &str) -> (out: Vec<u64>)
    ensures
        as_nats(out@) == components(s@),
{
    let t = trim(s);
    let v = chars_of(t.as_str());
    let ghost whole = t@;
    let mut from: usize = 0;
    assert(whole.skip(0) =~= whole);
    while from < v.len() && (v[from] == 'v' || v[from] == 'V')
        invariant
            v@ == whole,
            from <= v.len(),
            unprefixed(whole) == unprefixed(whole.skip(from as int)),
        decreases v.len() - from,
    {
        assert(whole.skip(from as int).drop_first() =~= whole.skip(from + 1));
        from += 1;
    }
    let ghost body = whole.skip(from as int);
    let mut out: Vec<u64> = Vec::new();
    assert(as_nats(out@) + components_of(body) =~= components_of(body));
    loop
        invariant
            v@ == whole,
            from <= v.len(),
            components(s@) == components_of(body),
            as_nats(out@) + components_of(whole.skip(from as int)) == components_of(body),
        decreases v.len() - from,
    {
        let ghost rest = whole.skip(from as int);
        let ghost before = as_nats(out@);
        let at = find_from(&v, from, '.');
        let n = read_component(&v, from, at);
        out.push(n);
        assert(as_nats(out@) =~= before.push(n as nat));
        if at == v.len() {
            assert(v@.subrange(from as int, at as int) =~= rest);
            assert(components_of(rest) =~= seq![n as nat]);
            assert(as_nats(out@) =~= components_of(body));
            return out;
        }
        assert(v@.subrange(from as int, at as int) =~= rest.take(at - from));
        assert(rest.skip(at - from + 1) =~= whole.skip(at + 1));
        assert(components_of(rest) =~= seq![n as nat] + components_of(whole.skip(at + 1)));
        assert(as_nats(out@) + components_of(whole.skip(at + 1)) =~= before + components_of(rest));
        from = at + 1;
    }
}

/// Returns true if `remote` is strictly newer than `current`.
///
/// Compares dot-separated numeric components (a leading "v" is ignored and any
/// non-numeric suffix on a component, like "-rc1", is dropped). Missing trailing
/// components are treated as 0, so "1.4" and "1.4.0" compare equal.
pub fn is_newer(remote: &str, current: &str) -> (yes: bool)
    ensures
        yes == version_newer(remote@, current@),
{
    let a = parse(remote);
    let b = parse(current);
    let ghost x = as_nats(a@);
    let ghost y = as_nats(b@);
    let len: usize = if a.len() > b.len() {
        a.len()
    } else {
        b.len()
    };
    let mut i: usize = 0;
    while i < len
        invariant
            x == as_nats(a@),
            y == as_nats(b@),
            x == components(remote@),
            y == components(current@),
            len >= a.len(),
            len >= b.len(),
            i <= len,
            agree_before(x, y, i as int),
        decreases len - i,
    {
        let r: u64 = if i < a.len() {
            a[i]
        } else {
            0
        };
        let c: u64 = if i < b.len() {
            b[i]
        } else {
            0
        };
        assert(r == component_at(x, i as int));
        assert(c == component_at(y, i as int));
        if r != c {
            proof {
                if r > c {
                    assert(larger_at(x, y, i as int));
                } else {
                    assert forall|k: int| !#[trigger] larger_at(x, y, k) by {
                        if larger_at(x, y, k) && k > i {
                            assert(component_at(x, i as int) == component_at(y, i as int));
                        }
                    }
                }
            }
            return r > c;
        }
        i += 1;
    }
    assert forall|k: int| !#[trigger] larger_at(x, y, k) by {
        if larger_at(x, y, k) && k < len {
            assert(component_at(x, k) == component_at(y, k));
        }
    }
    false
}

} // verus!

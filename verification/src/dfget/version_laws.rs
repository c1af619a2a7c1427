//! Laws of the order of versions.

use vstd::prelude::*;

use crate::dfget::version::{
    agree_before, component, component_at, components, components_of, is_digit, larger_at,
    leading_digits, newer, split_on, unprefixed, version_newer,
};
use crate::text::{first_of, is_white, lemma_first_of, trimmed_end, trimmed_start};

verus! {

/// No version is newer than itself.
pub proof fn law_not_newer_than_itself(v: Seq<char>)
    ensures
        !version_newer(v, v),
{
}

/// Two versions are not each newer than the other.
pub proof fn law_newer_is_asymmetric(a: Seq<char>, b: Seq<char>)
    requires
        version_newer(a, b),
    ensures
        !version_newer(b, a),
{
    let x = components(a);
    let y = components(b);
    let i = choose|i: int| larger_at(x, y, i);
    assert forall|k: int| !#[trigger] larger_at(y, x, k) by {
        if larger_at(y, x, k) {
            if k < i {
                assert(component_at(x, k) == component_at(y, k));
            } else if k > i {
                assert(component_at(y, i) == component_at(x, i));
            }
        }
    }
}

/// What is newer than a newer version is newer.
pub proof fn law_newer_is_transitive(a: Seq<char>, b: Seq<char>, c: Seq<char>)
    requires
        version_newer(a, b),
        version_newer(b, c),
    ensures
        version_newer(a, c),
{
    let x = components(a);
    let y = components(b);
    let z = components(c);
    let i = choose|i: int| larger_at(x, y, i);
    let j = choose|j: int| larger_at(y, z, j);
    let k = if i <= j {
        i
    } else {
        j
    };
    assert forall|m: int| 0 <= m < k implies #[trigger] component_at(x, m) == component_at(
        z,
        m,
    ) by {
        assert(component_at(x, m) == component_at(y, m));
        assert(component_at(y, m) == component_at(z, m));
    }
    if i < j {
        assert(component_at(y, i) == component_at(z, i));
    } else if j < i {
        assert(component_at(x, j) == component_at(y, j));
    }
    assert(larger_at(x, z, k));
}

/// Of two versions one is newer, unless all their components are equal.
pub proof fn law_newer_is_total(a: Seq<char>, b: Seq<char>)
    requires
        !version_newer(a, b),
        !version_newer(b, a),
    ensures
        forall|i: int| #[trigger]
            component_at(components(a), i) == component_at(components(b), i),
{
    let x = components(a);
    let y = components(b);
    assert forall|i: int| #[trigger] component_at(x, i) == component_at(y, i) by {
        lemma_agree(x, y, i);
    }
}

/// Lists of components of which neither is newer agree.
proof fn lemma_agree(x: Seq<nat>, y: Seq<nat>, i: int)
    requires
        !newer(x, y),
        !newer(y, x),
    ensures
        component_at(x, i) == component_at(y, i),
    decreases i,
{
    if i >= 0 {
        assert forall|j: int| 0 <= j < i implies #[trigger] component_at(x, j) == component_at(
            y,
            j,
        ) by {
            lemma_agree(x, y, j);
        }
        assert(agree_before(y, x, i)) by {
            assert forall|j: int| 0 <= j < i implies #[trigger] component_at(y, j)
                == component_at(x, j) by {
                assert(component_at(x, j) == component_at(y, j));
            }
        }
        assert(!larger_at(x, y, i));
        assert(!larger_at(y, x, i));
    }
}

/// Whatever follows the digits of a component is dropped.
pub proof fn law_suffix_is_dropped(part: Seq<char>, suffix: Seq<char>)
    requires
        suffix.len() > 0,
        !is_digit(suffix[0]),
    ensures
        component(part + suffix) == component(part),
{
    lemma_leading_digits_of_sum(part, suffix);
}

/// A text that starts with no digit adds none to the leading digits.
proof fn lemma_leading_digits_of_sum(part: Seq<char>, suffix: Seq<char>)
    requires
        suffix.len() > 0,
        !is_digit(suffix[0]),
    ensures
        leading_digits(part + suffix) == leading_digits(part),
    decreases part.len(),
{
    if part.len() > 0 {
        assert((part + suffix).drop_first() =~= part.drop_first() + suffix);
        lemma_leading_digits_of_sum(part.drop_first(), suffix);
    } else {
        assert(part + suffix =~= suffix);
    }
}

/// A leading "v" is ignored.
pub proof fn law_leading_v_is_ignored(v: Seq<char>)
    requires
        v.len() > 0,
        !is_white(v[0]),
    ensures
        components(seq!['v'] + v) == components(v),
        components(seq!['V'] + v) == components(v),
{
    lemma_leading_letter(v, 'v');
    lemma_leading_letter(v, 'V');
}

/// A letter v in front of a version changes no component.
proof fn lemma_leading_letter(v: Seq<char>, c: char)
    requires
        v.len() > 0,
        !is_white(v[0]),
        c == 'v' || c == 'V',
    ensures
        components(seq![c] + v) == components(v),
{
    let s = seq![c] + v;
    assert(s[0] == c);
    assert(trimmed_start(s) == s);
    lemma_trimmed_end_keeps_front(c, v);
    let t = seq![c] + trimmed_end(v);
    assert(t.drop_first() =~= trimmed_end(v));
}

/// Trailing white space goes from behind the first character.
proof fn lemma_trimmed_end_keeps_front(c: char, s: Seq<char>)
    requires
        !is_white(c),
    ensures
        trimmed_end(seq![c] + s) == seq![c] + trimmed_end(s),
    decreases s.len(),
{
    let whole = seq![c] + s;
    if s.len() > 0 {
        assert(whole.last() == s.last());
        if is_white(s.last()) {
            assert(whole.drop_last() =~= seq![c] + s.drop_last());
            lemma_trimmed_end_keeps_front(c, s.drop_last());
        }
    } else {
        assert(whole.last() == c);
        assert(trimmed_end(whole) == whole);
    }
}

/// A trailing component of zero changes nothing: "1.4" and "1.4.0" compare equal
/// to each other and alike to every other version.
pub proof fn law_trailing_zero(v: Seq<char>, other: Seq<char>)
    ensures
        !version_newer(v, v + seq!['.', '0']),
        !version_newer(v + seq!['.', '0'], v),
        version_newer(v, other) <==> version_newer(v + seq!['.', '0'], other),
        version_newer(other, v) <==> version_newer(other, v + seq!['.', '0']),
{
    let x = components(v);
    let longer = components(v + seq!['.', '0']);
    lemma_trailing_zero(v);
    assert forall|i: int| #[trigger] component_at(longer, i) == component_at(x, i) by {}
    lemma_same_order(x, longer, components(other));
    lemma_same_order(x, longer, x);
    lemma_same_order(x, longer, longer);
}

/// Components that agree everywhere compare alike.
proof fn lemma_same_order(x: Seq<nat>, y: Seq<nat>, z: Seq<nat>)
    requires
        forall|i: int| #[trigger] component_at(y, i) == component_at(x, i),
    ensures
        newer(x, z) <==> newer(y, z),
        newer(z, x) <==> newer(z, y),
{
    assert(forall|i: int| component_at(x, i) == #[trigger] component_at(y, i));
    if newer(x, z) {
        let i = choose|i: int| larger_at(x, z, i);
        assert(component_at(y, i) == component_at(x, i));
        assert(agree_before(y, z, i)) by {
            assert forall|j: int| 0 <= j < i implies #[trigger] component_at(y, j)
                == component_at(z, j) by {
                assert(component_at(x, j) == component_at(z, j));
            }
        }
        assert(larger_at(y, z, i));
    }
    if newer(y, z) {
        let i = choose|i: int| larger_at(y, z, i);
        assert(component_at(y, i) == component_at(x, i));
        assert(agree_before(x, z, i)) by {
            assert forall|j: int| 0 <= j < i implies #[trigger] component_at(x, j)
                == component_at(z, j) by {
                assert(component_at(y, j) == component_at(z, j));
            }
        }
        assert(larger_at(x, z, i));
    }
    if newer(z, x) {
        let i = choose|i: int| larger_at(z, x, i);
        assert(component_at(y, i) == component_at(x, i));
        assert(agree_before(z, y, i)) by {
            assert forall|j: int| 0 <= j < i implies #[trigger] component_at(z, j)
                == component_at(y, j) by {
                assert(component_at(z, j) == component_at(x, j));
                assert(component_at(y, j) == component_at(x, j));
            }
        }
        assert(larger_at(z, y, i));
    }
    if newer(z, y) {
        let i = choose|i: int| larger_at(z, y, i);
        assert(component_at(y, i) == component_at(x, i));
        assert(agree_before(z, x, i)) by {
            assert forall|j: int| 0 <= j < i implies #[trigger] component_at(z, j)
                == component_at(x, j) by {
                assert(component_at(z, j) == component_at(y, j));
                assert(component_at(y, j) == component_at(x, j));
            }
        }
        assert(larger_at(z, x, i));
    }
}

/// ".0" behind a version adds one component, a zero.
proof fn lemma_trailing_zero(v: Seq<char>)
    ensures
        components(v + seq!['.', '0']) == components(v).push(0),
{
    let tail = seq!['.', '0'];
    lemma_trimmed_start_of_sum(v, tail);
    let t = trimmed_start(v);
    assert((t + tail).last() == '0');
    assert(trimmed_end(t + tail) == t + tail);
    lemma_unprefixed_of_sum(t, tail);
    let u = unprefixed(t);
    lemma_split_before_dot(u, tail);
    assert(components_of(u + tail) =~= components_of(u).push(0)) by {
        assert(leading_digits(seq!['0'].drop_first()) =~= Seq::<char>::empty());
        assert(leading_digits(seq!['0']) =~= seq!['0']);
        reveal_with_fuel(crate::dfget::version::number_of, 2);
        assert(seq!['0'].drop_last() =~= Seq::<char>::empty());
        assert(component(seq!['0']) == 0);
    }
    lemma_unprefixed_trimmed(t);
    lemma_components_trimmed(u);
}

/// A text that starts with no white space stays when white space in front goes.
proof fn lemma_trimmed_start_of_sum(s: Seq<char>, tail: Seq<char>)
    requires
        tail.len() > 0,
        !is_white(tail[0]),
    ensures
        trimmed_start(s + tail) == trimmed_start(s) + tail,
    decreases s.len(),
{
    if s.len() > 0 {
        assert((s + tail)[0] == s[0]);
        assert((s + tail).drop_first() =~= s.drop_first() + tail);
        lemma_trimmed_start_of_sum(s.drop_first(), tail);
    } else {
        assert(s + tail =~= tail);
        assert(trimmed_start(s) + tail =~= tail);
    }
}

/// A text that starts with no v stays when the letters in front go.
proof fn lemma_unprefixed_of_sum(s: Seq<char>, tail: Seq<char>)
    requires
        tail.len() > 0,
        tail[0] != 'v',
        tail[0] != 'V',
    ensures
        unprefixed(s + tail) == unprefixed(s) + tail,
    decreases s.len(),
{
    if s.len() > 0 {
        assert((s + tail)[0] == s[0]);
        assert((s + tail).drop_first() =~= s.drop_first() + tail);
        lemma_unprefixed_of_sum(s.drop_first(), tail);
    } else {
        assert(s + tail =~= tail);
        assert(unprefixed(s) + tail =~= tail);
    }
}

/// Letters in front and white space behind go in either order.
proof fn lemma_unprefixed_trimmed(s: Seq<char>)
    ensures
        unprefixed(trimmed_end(s)) == trimmed_end(unprefixed(s)),
    decreases s.len(),
{
    if s.len() > 0 && (s[0] == 'v' || s[0] == 'V') {
        let rest = s.drop_first();
        assert(s =~= seq![s[0]] + rest);
        lemma_trimmed_end_keeps_front(s[0], rest);
        let t = seq![s[0]] + trimmed_end(rest);
        assert(t[0] == s[0]);
        assert(t.drop_first() =~= trimmed_end(rest));
        lemma_unprefixed_trimmed(rest);
    } else {
        lemma_trimmed_end_is_prefix(s);
        let t = trimmed_end(s);
        if t.len() > 0 {
            assert(t[0] == s[0]);
        }
    }
}

/// A text without its trailing white space is a prefix of the text.
proof fn lemma_trimmed_end_is_prefix(s: Seq<char>)
    ensures
        trimmed_end(s).len() <= s.len(),
        trimmed_end(s) == s.take(trimmed_end(s).len() as int),
    decreases s.len(),
{
    if s.len() > 0 && is_white(s.last()) {
        lemma_trimmed_end_is_prefix(s.drop_last());
        assert(s.drop_last().take(trimmed_end(s).len() as int) =~= s.take(
            trimmed_end(s).len() as int,
        ));
    } else {
        assert(s.take(s.len() as int) =~= s);
    }
}

/// White space behind a version changes no component.
proof fn lemma_components_trimmed(s: Seq<char>)
    ensures
        components_of(trimmed_end(s)) == components_of(s),
    decreases s.len(),
{
    if s.len() > 0 && is_white(s.last()) {
        let front = s.drop_last();
        lemma_components_trimmed(front);
        assert(s =~= front.push(s.last()));
        lemma_split_push(front, s.last());
        let parts = split_on(front, '.');
        let last = parts.last();
        assert(last.push(s.last()) =~= last + seq![s.last()]);
        law_suffix_is_dropped(last, seq![s.last()]);
        assert(components_of(s) =~= components_of(front));
    }
}

/// A character that is no dot belongs to the last piece.
proof fn lemma_split_push(s: Seq<char>, c: char)
    requires
        c != '.',
    ensures
        split_on(s, '.').len() > 0,
        split_on(s.push(c), '.') == split_on(s, '.').drop_last().push(
            split_on(s, '.').last().push(c),
        ),
    decreases s.len(),
{
    let n = first_of(s, '.');
    lemma_first_of(s, '.');
    lemma_first_of(s.push(c), '.');
    let whole = s.push(c);
    if n < s.len() {
        lemma_first_is(whole, '.', n);
        let rest = s.skip(n + 1);
        assert(whole.skip(n + 1) =~= rest.push(c));
        assert(whole.take(n) =~= s.take(n));
        lemma_split_push(rest, c);
        let parts = split_on(rest, '.');
        assert((seq![s.take(n)] + parts).drop_last() =~= seq![s.take(n)] + parts.drop_last());
        assert(split_on(whole, '.') =~= split_on(s, '.').drop_last().push(
            split_on(s, '.').last().push(c),
        ));
    } else {
        if first_of(whole, '.') < whole.len() {
            assert(whole[first_of(whole, '.')] == '.');
        }
        assert(split_on(whole, '.') =~= seq![whole]);
        assert(seq![s].drop_last().push(s.push(c)) =~= seq![whole]);
    }
}

/// A dot and a zero behind a text are one more piece.
proof fn lemma_split_before_dot(s: Seq<char>, tail: Seq<char>)
    requires
        tail == seq!['.', '0'],
    ensures
        split_on(s + tail, '.') == split_on(s, '.').push(seq!['0']),
    decreases s.len(),
{
    let n = first_of(s, '.');
    let whole = s + tail;
    lemma_first_of(s, '.');
    if n < s.len() {
        lemma_first_is(whole, '.', n);
        let rest = s.skip(n + 1);
        assert(whole.skip(n + 1) =~= rest + tail);
        assert(whole.take(n) =~= s.take(n));
        lemma_split_before_dot(rest, tail);
        assert(split_on(whole, '.') =~= split_on(s, '.').push(seq!['0']));
    } else {
        lemma_first_is(whole, '.', s.len() as int);
        assert(whole.take(s.len() as int) =~= s);
        assert(whole.skip((s.len() + 1) as int) =~= seq!['0']);
        lemma_first_of(seq!['0'], '.');
        assert(split_on(seq!['0'], '.') =~= seq![seq!['0']]);
        assert(split_on(whole, '.') =~= split_on(s, '.').push(seq!['0']));
    }
}

/// The first position of a character is where it stands and nothing before it does.
proof fn lemma_first_is(s: Seq<char>, c: char, n: int)
    requires
        0 <= n < s.len(),
        s[n] == c,
        forall|j: int| 0 <= j < n ==> s[j] != c,
    ensures
        first_of(s, c) == n,
{
    lemma_first_of(s, c);
    let m = first_of(s, c);
    if m < n {
        assert(s[m] == c);
    }
}

} // verus!

//! Laws of the content keys: what a key binds, and which ways to name a file are
//! the same.

use vstd::prelude::*;
use vstd::utf8::encode_utf8;

use crate::p2p::content_key::{
    bound_host, colon_free, content_key_text, hex_char, hex_text, is_plain_url, joins_plainly,
    key_input, named_text, replaced, sha256, source_url, without_colons,
};
use crate::text::{first_of, lemma_first_of};

verus! {

/// A file has the same key under its `gguf://` and its `hf://` URL.
pub proof fn law_gguf_and_hf_share_a_key(
    path: Seq<char>,
    revision: Seq<char>,
    base_url: Option<Seq<char>>,
)
    ensures
        content_key_text("gguf://"@ + path, revision, base_url) == content_key_text(
            "hf://"@ + path,
            revision,
            base_url,
        ),
{
    lemma_source_url(path);
}

/// Both schemes of a path stand for the same source.
proof fn lemma_source_url(path: Seq<char>)
    ensures
        source_url("gguf://"@ + path) == "hf://"@ + path,
        source_url("hf://"@ + path) == "hf://"@ + path,
{
    reveal_strlit("gguf://");
    reveal_strlit("hf://");
    let g = "gguf://"@ + path;
    let h = "hf://"@ + path;
    assert(g.take(7) =~= "gguf://"@);
    assert(g.skip(7) =~= path);
    if "gguf://"@.is_prefix_of(h) {
        assert(h.subrange(0, 7)[0] == 'g');
        assert(h[0] == 'h');
    }
}

/// No base URL and an empty one are the same default.
pub proof fn law_empty_base_is_the_default(url: Seq<char>, revision: Seq<char>)
    ensures
        content_key_text(url, revision, Some(Seq::empty())) == content_key_text(
            url,
            revision,
            None,
        ),
{
}

/// The number that a hexadecimal digit in lower case stands for.
pub open spec fn hex_value(c: char) -> int {
    if '0' <= c <= '9' {
        c as int - '0' as int
    } else {
        c as int - 'a' as int + 10
    }
}

/// A digest is written as two digits for each byte, in lower case, in the order of the
/// bytes, the digit of the higher half first.
pub proof fn law_hex_reads_back(data: Seq<u8>, i: int)
    requires
        0 <= i < data.len(),
    ensures
        hex_text(data).len() == 2 * data.len(),
        16 * hex_value(hex_text(data)[2 * i]) + hex_value(hex_text(data)[2 * i + 1]) == data[i],
        '0' <= hex_text(data)[2 * i] <= '9' || 'a' <= hex_text(data)[2 * i] <= 'f',
        '0' <= hex_text(data)[2 * i + 1] <= '9' || 'a' <= hex_text(data)[2 * i + 1] <= 'f',
{
    assert((2 * i) / 2 == i && (2 * i + 1) / 2 == i);
    assert((2 * i) % 2 == 0 && (2 * i + 1) % 2 == 1);
    let (high, low) = (data[i] as int / 16, data[i] as int % 16);
    assert(hex_text(data)[2 * i] == hex_char(high));
    assert(hex_text(data)[2 * i + 1] == hex_char(low));
    lemma_hex_value(high);
    lemma_hex_value(low);
}

/// A digit stands for its number.
proof fn lemma_hex_value(n: int)
    requires
        0 <= n < 16,
    ensures
        hex_value(hex_char(n)) == n,
        '0' <= hex_char(n) <= '9' || 'a' <= hex_char(n) <= 'f',
{
}

/// Different digests are written as different keys.
pub proof fn law_hex_is_injective(a: Seq<u8>, b: Seq<u8>)
    requires
        hex_text(a) == hex_text(b),
    ensures
        a == b,
{
    assert(hex_text(a).len() == 2 * a.len());
    assert(hex_text(b).len() == 2 * b.len());
    assert forall|i: int| 0 <= i < a.len() implies a[i] == b[i] by {
        let x = hex_text(a);
        let y = hex_text(b);
        assert(x[2 * i] == y[2 * i]);
        assert(x[2 * i + 1] == y[2 * i + 1]);
        assert((2 * i) / 2 == i && (2 * i + 1) / 2 == i);
        assert((2 * i) % 2 == 0 && (2 * i + 1) % 2 == 1);
        assert(x[2 * i] == hex_char(a[i] as int / 16));
        assert(y[2 * i] == hex_char(b[i] as int / 16));
        assert(x[2 * i + 1] == hex_char(a[i] as int % 16));
        assert(y[2 * i + 1] == hex_char(b[i] as int % 16));
        lemma_hex_char(a[i] as int / 16, b[i] as int / 16);
        lemma_hex_char(a[i] as int % 16, b[i] as int % 16);
    }
    assert(a =~= b);
}

/// A digit stands for one number.
proof fn lemma_hex_char(a: int, b: int)
    requires
        0 <= a < 16,
        0 <= b < 16,
        hex_char(a) == hex_char(b),
    ensures
        a == b,
{
}

/// A file of a repository with no colon in its path and its revision has the key
/// of its URL, its revision and its host, joined by colons.
pub proof fn law_plain_names_are_joined(
    path: Seq<char>,
    revision: Seq<char>,
    base_url: Option<Seq<char>>,
)
    requires
        colon_free(path),
        colon_free(revision),
    ensures
        key_input("gguf://"@ + path, revision, base_url) == "hf://"@ + path + ":"@ + revision
            + host_text(base_url),
        key_input("hf://"@ + path, revision, base_url) == "hf://"@ + path + ":"@ + revision
            + host_text(base_url),
{
    lemma_source_url(path);
    lemma_parts("gguf://"@ + path, revision, base_url);
    lemma_parts("hf://"@ + path, revision, base_url);
    reveal_strlit("hf://");
    reveal_strlit("://");
    let u = "hf://"@ + path;
    lemma_first_of(u, ':');
    assert(u[2] == ':' && u[0] != ':' && u[1] != ':');
    let n = first_of(u, ':');
    assert(n == 2) by {
        if n < 2 {
            assert(u[n] == ':');
        }
    }
    assert(u.skip(2).take(3) =~= "://"@);
    assert(u.skip(3)[0] == '/' && u.skip(3)[1] == '/');
    assert forall|i: int| 0 <= i < u.skip(3).len() implies #[trigger] u.skip(3)[i] != ':' by {
        if i >= 2 {
            assert(u.skip(3)[i] == path[i - 2]);
        }
    }
}

/// The source of a file is its URL, character for character, with `hf://` in place of
/// `gguf://` where it starts with that; and its host is the base URL, character for
/// character, unless that is empty.
pub proof fn law_source_and_host(path: Seq<char>, url: Seq<char>, base_url: Seq<char>)
    ensures
        source_url("gguf://"@ + path) == "hf://"@ + path,
        !"gguf://"@.is_prefix_of(url) ==> source_url(url) == url,
        base_url.len() > 0 ==> bound_host(Some(base_url)) == Some(base_url),
        base_url.len() == 0 ==> bound_host(Some(base_url)) is None,
        bound_host(None) is None,
        base_url.len() > 0 ==> host_text(Some(base_url)) == seq![':'] + base_url,
        host_text(None) == Seq::<char>::empty(),
{
    lemma_source_url(path);
    reveal_strlit(":");
    assert(":"@ =~= seq![':']);
}

/// A URL without a scheme is joined with its revision and its host as it is, too:
/// without a host whatever the revision, and with one unless the URL is empty or the
/// revision starts with two slashes.
pub proof fn law_names_without_scheme_are_joined(
    url: Seq<char>,
    revision: Seq<char>,
    base_url: Option<Seq<char>>,
)
    requires
        colon_free(url),
        colon_free(revision),
        bound_host(base_url) is Some ==> url.len() > 0 && !"//"@.is_prefix_of(revision),
    ensures
        key_input(url, revision, base_url) == url + ":"@ + revision + host_text(base_url),
{
    reveal_strlit("gguf://");
    if "gguf://"@.is_prefix_of(url) {
        assert(url.subrange(0, 7)[4] == ':');
        assert(url[4] == ':');
    }
    lemma_parts(url, revision, base_url);
}

/// Two texts that go on with a colon after parts without one have the same parts.
proof fn lemma_same_until_colon(a: Seq<char>, x: Seq<char>, b: Seq<char>, y: Seq<char>)
    requires
        colon_free(a),
        colon_free(b),
        x.len() == 0 || x[0] == ':',
        y.len() == 0 || y[0] == ':',
        a + x == b + y,
    ensures
        a == b,
        x == y,
{
    let s = a + x;
    assert(s == b + y);
    if a.len() < b.len() {
        assert(s[a.len() as int] == b[a.len() as int]);
        assert(x.len() > 0);
        assert(s[a.len() as int] == x[0]);
    } else if b.len() < a.len() {
        assert(s[b.len() as int] == a[b.len() as int]);
        assert(y.len() > 0);
        assert(s[b.len() as int] == y[0]);
    }
    assert(s.take(a.len() as int) =~= a);
    assert(s.take(b.len() as int) =~= b);
    assert(s.skip(a.len() as int) =~= x);
    assert(s.skip(b.len() as int) =~= y);
}

/// A text with its colons replaced has none.
proof fn lemma_without_colons(s: Seq<char>)
    ensures
        colon_free(without_colons(s)),
    decreases s.len(),
{
    reveal_strlit("%3A");
    reveal_strlit("%25");
    if s.len() > 0 {
        lemma_without_colons(s.drop_last());
        let front = without_colons(s.drop_last());
        let t = without_colons(s);
        assert forall|i: int| 0 <= i < t.len() implies #[trigger] t[i] != ':' by {
            if i < front.len() {
                assert(t[i] == front[i]);
            }
        }
    }
}

/// The first character is written in front of the others.
proof fn lemma_without_colons_front(s: Seq<char>)
    requires
        s.len() > 0,
    ensures
        without_colons(s) == replaced(s[0]) + without_colons(s.drop_first()),
    decreases s.len(),
{
    let front = s.drop_last();
    if front.len() == 0 {
        assert(s.drop_first() =~= Seq::<char>::empty());
        assert(without_colons(front) + replaced(s.last()) =~= replaced(s[0]) + without_colons(
            s.drop_first(),
        ));
    } else {
        lemma_without_colons_front(front);
        assert(front.drop_first() =~= s.drop_first().drop_last());
        assert(without_colons(s) =~= replaced(s[0]) + without_colons(s.drop_first()));
    }
}

/// Different texts stay different when their colons are replaced.
proof fn lemma_replacing_is_injective(a: Seq<char>, b: Seq<char>)
    requires
        without_colons(a) == without_colons(b),
    ensures
        a == b,
    decreases a.len(),
{
    reveal_strlit("%3A");
    reveal_strlit("%25");
    if a.len() > 0 {
        lemma_without_colons_front(a);
    }
    if b.len() > 0 {
        lemma_without_colons_front(b);
    }
    if a.len() > 0 && b.len() > 0 {
        let x = replaced(a[0]);
        let y = replaced(b[0]);
        let ra = without_colons(a.drop_first());
        let rb = without_colons(b.drop_first());
        assert((x + ra)[0] == x[0]);
        assert((y + rb)[0] == y[0]);
        if x.len() > 1 {
            assert((x + ra)[1] == x[1]);
        }
        if y.len() > 1 {
            assert((y + rb)[1] == y[1]);
        }
        assert(a[0] == b[0]);
        assert((x + ra).skip(x.len() as int) =~= ra);
        assert((x + rb).skip(x.len() as int) =~= rb);
        lemma_replacing_is_injective(a.drop_first(), b.drop_first());
        assert(a =~= seq![a[0]] + a.drop_first());
        assert(b =~= seq![b[0]] + b.drop_first());
    } else {
        assert(a =~= b);
    }
}

/// What follows the URL and the revision: nothing, or a colon and the host.
pub open spec fn host_text(base_url: Option<Seq<char>>) -> Seq<char> {
    match bound_host(base_url) {
        Some(h) => ":"@ + h,
        None => Seq::empty(),
    }
}

/// The text of a file: its parts in front of the host, and the host.
proof fn lemma_parts(url: Seq<char>, revision: Seq<char>, base_url: Option<Seq<char>>)
    ensures
        key_input(url, revision, base_url) == named_text(
            source_url(url),
            revision,
            bound_host(base_url),
        ) + host_text(base_url),
        host_text(base_url).len() == 0 || host_text(base_url)[0] == ':',
{
    reveal_strlit(":");
    assert(key_input(url, revision, base_url) =~= named_text(
        source_url(url),
        revision,
        bound_host(base_url),
    ) + host_text(base_url));
}

/// Hosts that are written alike are the same.
proof fn lemma_same_host(a: Option<Seq<char>>, b: Option<Seq<char>>)
    requires
        host_text(a) == host_text(b),
    ensures
        bound_host(a) == bound_host(b),
{
    reveal_strlit(":");
    if bound_host(a) is Some {
        assert(host_text(a).skip(1) =~= bound_host(a)->0);
    }
    if bound_host(b) is Some {
        assert(host_text(b).skip(1) =~= bound_host(b)->0);
    }
}

/// The scheme and the path of a plain URL: neither has a colon.
proof fn lemma_plain_url(u: Seq<char>) -> (parts: (Seq<char>, Seq<char>))
    requires
        is_plain_url(u),
    ensures
        u == parts.0 + ":"@ + parts.1,
        parts.0.len() > 0,
        "//"@.is_prefix_of(parts.1),
        colon_free(parts.0),
        colon_free(parts.1),
{
    reveal_strlit(":");
    reveal_strlit("//");
    reveal_strlit("://");
    lemma_first_of(u, ':');
    let n = first_of(u, ':');
    assert(u.skip(n).len() >= 3);
    let scheme = u.take(n);
    assert(u =~= scheme + ":"@ + u.skip(n + 1));
    assert forall|i: int| 0 <= i < scheme.len() implies #[trigger] scheme[i] != ':' by {
        assert(scheme[i] == u[i]);
    }
    let rest = u.skip(n + 1);
    assert("//"@ =~= rest.subrange(0, 2)) by {
        let tail = u.skip(n);
        assert(tail.subrange(0, 3) == "://"@);
        assert(rest[0] == tail.subrange(0, 3)[1]);
        assert(rest[1] == tail.subrange(0, 3)[2]);
    }
    (scheme, rest)
}

/// The key binds the source host, the path and the revision: the digests of
/// different files are taken of different texts, whatever their URLs, revisions and
/// hosts.
pub proof fn law_key_binds_its_source(
    url_a: Seq<char>,
    rev_a: Seq<char>,
    host_a: Option<Seq<char>>,
    url_b: Seq<char>,
    rev_b: Seq<char>,
    host_b: Option<Seq<char>>,
)
    requires
        key_input(url_a, rev_a, host_a) == key_input(url_b, rev_b, host_b),
    ensures
        source_url(url_a) == source_url(url_b),
        rev_a == rev_b,
        bound_host(host_a) == bound_host(host_b),
{
    reveal_strlit(":");
    let (ua, ub) = (source_url(url_a), source_url(url_b));
    let (ta, tb) = (host_text(host_a), host_text(host_b));
    let (a1, a2, a3) = lemma_form(url_a, rev_a, host_a);
    let (b1, b2, b3) = lemma_form(url_b, rev_b, host_b);
    lemma_same_until_colon(a1, ":"@ + (a2 + a3), b1, ":"@ + (b2 + b3));
    assert((":"@ + (a2 + a3)).skip(1) =~= a2 + a3);
    assert((":"@ + (b2 + b3)).skip(1) =~= b2 + b3);
    lemma_same_until_colon(a2, a3, b2, b3);
    let plain_a = joins_plainly(ua, rev_a, bound_host(host_a));
    let plain_b = joins_plainly(ub, rev_b, bound_host(host_b));
    if plain_a && plain_b {
        if is_plain_url(ua) && is_plain_url(ub) {
            assert((":"@ + (rev_a + ta)).skip(1) =~= rev_a + ta);
            assert((":"@ + (rev_b + tb)).skip(1) =~= rev_b + tb);
            lemma_parts(url_a, rev_a, host_a);
            lemma_parts(url_b, rev_b, host_b);
            lemma_same_until_colon(rev_a, ta, rev_b, tb);
        }
    } else if !plain_a && !plain_b {
        let (ea, eb) = (without_colons(rev_a), without_colons(rev_b));
        assert((":"@ + (ea + ta)).skip(1) =~= ea + ta);
        assert((":"@ + (eb + tb)).skip(1) =~= eb + tb);
        lemma_without_colons(rev_a);
        lemma_without_colons(rev_b);
        lemma_parts(url_a, rev_a, host_a);
        lemma_parts(url_b, rev_b, host_b);
        lemma_same_until_colon(ea, ta, eb, tb);
        lemma_replacing_is_injective(ua, ub);
        lemma_replacing_is_injective(rev_a, rev_b);
    }
    lemma_same_host(host_a, host_b);
}

/// The text of a file up to its first colon, from there to its second, and the rest:
/// the parts of the key are told by them.
proof fn lemma_form(url: Seq<char>, revision: Seq<char>, base_url: Option<Seq<char>>) -> (form: (
    Seq<char>,
    Seq<char>,
    Seq<char>,
))
    ensures
        key_input(url, revision, base_url) == form.0 + (":"@ + (form.1 + form.2)),
        colon_free(form.0),
        colon_free(form.1),
        form.2.len() == 0 || form.2[0] == ':',
        ({
            let source = source_url(url);
            let tail = host_text(base_url);
            if !joins_plainly(source, revision, bound_host(base_url)) {
                &&& form.0 == Seq::<char>::empty()
                &&& form.1 == without_colons(source)
                &&& form.2 == ":"@ + (without_colons(revision) + tail)
            } else if is_plain_url(source) {
                &&& form.0.len() > 0
                &&& "//"@.is_prefix_of(form.1)
                &&& source == form.0 + ":"@ + form.1
                &&& form.2 == ":"@ + (revision + tail)
            } else {
                &&& form.0 == source
                &&& form.1 == revision
                &&& form.2 == tail
            }
        }),
{
    reveal_strlit(":");
    let source = source_url(url);
    let tail = host_text(base_url);
    let text = key_input(url, revision, base_url);
    lemma_parts(url, revision, base_url);
    if !joins_plainly(source, revision, bound_host(base_url)) {
        lemma_without_colons(source);
        let first = Seq::<char>::empty();
        let rest = ":"@ + (without_colons(revision) + tail);
        assert(text =~= first + (":"@ + (without_colons(source) + rest)));
        (first, without_colons(source), rest)
    } else if is_plain_url(source) {
        let (scheme, path) = lemma_plain_url(source);
        let rest = ":"@ + (revision + tail);
        assert(text =~= scheme + (":"@ + (path + rest)));
        (scheme, path, rest)
    } else {
        assert(text =~= source + (":"@ + (revision + tail)));
        (source, revision, tail)
    }
}

/// Files share a key only where they have the same source, revision and host, or
/// where SHA-256 gives different texts the same digest.
pub proof fn law_same_key_same_file(
    url_a: Seq<char>,
    rev_a: Seq<char>,
    host_a: Option<Seq<char>>,
    url_b: Seq<char>,
    rev_b: Seq<char>,
    host_b: Option<Seq<char>>,
)
    requires
        content_key_text(url_a, rev_a, host_a) == content_key_text(url_b, rev_b, host_b),
    ensures
        ({
            let x = encode_utf8(key_input(url_a, rev_a, host_a));
            let y = encode_utf8(key_input(url_b, rev_b, host_b));
            &&& sha256(x) == sha256(y)
            &&& x == y ==> source_url(url_a) == source_url(url_b) && rev_a == rev_b && bound_host(
                host_a,
            ) == bound_host(host_b)
        }),
{
    let a = key_input(url_a, rev_a, host_a);
    let b = key_input(url_b, rev_b, host_b);
    law_hex_is_injective(sha256(encode_utf8(a)), sha256(encode_utf8(b)));
    vstd::utf8::encode_utf8_decode_utf8(a);
    vstd::utf8::encode_utf8_decode_utf8(b);
    if encode_utf8(a) == encode_utf8(b) {
        law_key_binds_its_source(url_a, rev_a, host_a, url_b, rev_b, host_b);
    }
}

} // verus!

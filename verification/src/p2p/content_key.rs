//! The keys under which peers find and exchange a file.

use sha2::Digest;
use vstd::prelude::*;
use vstd::utf8::encode_utf8;

use crate::text::{
    after_prefix, chars_of, find_from, first_of, has_prefix, is_hex_digit, is_lower_hex_digit,
    opt_str_view, text_of,
};
use crate::tracker::routes::{is_content_key, is_query_key};

verus! {

/// The SHA-256 digest of bytes, as the sha2 crate computes it.
pub uninterp spec fn sha256(data: Seq<u8>) -> Seq<u8>;

/// `Sha256::digest` of the sha2 crate. The digest depends on the bytes alone and
/// has 32 bytes; which ones it has is not stated.
#[verifier::external_body]
fn sha256_digest(data: &[u8]) -> (digest: Vec<u8>)
    ensures
        digest@ == sha256(data@),
        digest@.len() == 32,
{
    sha2::Sha256::digest(data).to_vec()
}

/// The lower-case hexadecimal digit of a number below 16.
pub open spec fn hex_char(n: int) -> char {
    if n < 10 {
        (('0' as u32) + n) as char
    } else {
        (('a' as u32) + (n - 10)) as char
    }
}

/// Bytes in hexadecimal notation, two lower-case digits for each, the higher first.
pub open spec fn hex_text(data: Seq<u8>) -> Seq<char> {
    Seq::new(
        2 * data.len(),
        |i: int|
            if i % 2 == 0 {
                hex_char(data[i / 2] as int / 16)
            } else {
                hex_char(data[i / 2] as int % 16)
            },
    )
}

/// `hex::encode` of the hex crate writes each byte as two lower-case hexadecimal
/// digits, the one of the higher half first.
#[verifier::external_body]
fn hex_encode(data: &[u8]) -> (text: String)
    ensures
        text@ == hex_text(data@),
{
    hex::encode(data)
}

/// A URL under the scheme of the source: `gguf://` stands for `hf://`.
pub open spec fn source_url(url: Seq<char>) -> Seq<char> {
    if "gguf://"@.is_prefix_of(url) {
        "hf://"@ + url.skip("gguf://"@.len() as int)
    } else {
        url
    }
}

/// The host that a key binds: none for the default one, which may be written as
/// an empty text too.
pub open spec fn bound_host(base_url: Option<Seq<char>>) -> Option<Seq<char>> {
    match base_url {
        Some(b) if b.len() > 0 => Some(b),
        _ => None,
    }
}

/// A text without colons.
pub open spec fn colon_free(s: Seq<char>) -> bool {
    forall|i: int| 0 <= i < s.len() ==> #[trigger] s[i] != ':'
}

/// A URL with a scheme, and no colon but the one behind the scheme.
pub open spec fn is_plain_url(url: Seq<char>) -> bool {
    let n = first_of(url, ':');
    0 < n && "://"@.is_prefix_of(url.skip(n)) && colon_free(url.skip(n + 1))
}

/// How one character is written where colons are replaced.
pub open spec fn replaced(c: char) -> Seq<char> {
    if c == ':' {
        "%3A"@
    } else if c == '%' {
        "%25"@
    } else {
        seq![c]
    }
}

/// A text with its colons, and the signs that stand for them, written otherwise, so
/// that it has no colon.
pub open spec fn without_colons(s: Seq<char>) -> Seq<char>
    decreases s.len(),
{
    if s.len() == 0 {
        Seq::empty()
    } else {
        without_colons(s.drop_last()) + replaced(s.last())
    }
}

/// The URL, the revision and the host can be told from the text that they make when
/// they are joined by colons as they are: there is none in the revision, and none in
/// the URL but the one behind its scheme. A URL without a scheme is not to be taken
/// for the scheme of another one, nor for nothing, in front of a host.
pub open spec fn joins_plainly(
    source: Seq<char>,
    revision: Seq<char>,
    host: Option<Seq<char>>,
) -> bool {
    colon_free(revision) && (is_plain_url(source) || (colon_free(source) && (host is Some
        ==> source.len() > 0 && !"//"@.is_prefix_of(revision))))
}

/// The URL and the revision in one text: joined by a colon as they are where all
/// parts of the key can be told then; else behind a colon, and each without colons.
pub open spec fn named_text(
    source: Seq<char>,
    revision: Seq<char>,
    host: Option<Seq<char>>,
) -> Seq<char> {
    if joins_plainly(source, revision, host) {
        source + ":"@ + revision
    } else {
        ":"@ + without_colons(source) + ":"@ + without_colons(revision)
    }
}

/// The text whose digest is the key.
pub open spec fn key_input(
    url: Seq<char>,
    revision: Seq<char>,
    base_url: Option<Seq<char>>,
) -> Seq<char> {
    let host = bound_host(base_url);
    let named = named_text(source_url(url), revision, host);
    match host {
        Some(b) => named + ":"@ + b,
        None => named,
    }
}

/// The content key of a file.
pub open spec fn content_key_text(
    url: Seq<char>,
    revision: Seq<char>,
    base_url: Option<Seq<char>>,
) -> Seq<char> {
    hex_text(sha256(encode_utf8(key_input(url, revision, base_url))))
}

/// A URL under the scheme of the source.
fn source(url: &str) -> (out: String)
    ensures
        out@ == source_url(url@),
{
    match after_prefix(url, "gguf://") {
        Some(rest) => {
            let mut out = String::new();
            out.append("hf://");
            out.append(rest.as_str());
            assert(url@.skip("gguf://"@.len() as int) =~= rest@);
            assert(out@ =~= source_url(url@));
            out
        },
        None => url.to_owned(),
    }
}

/// Whether a text has no colon from position `from` on.
fn no_colon_from(v: &Vec<char>, from: usize) -> (yes: bool)
    requires
        from <= v.len(),
    ensures
        yes == colon_free(v@.skip(from as int)),
{
    let at = find_from(v, from, ':');
    let ghost rest = v@.skip(from as int);
    if at < v.len() {
        assert(rest[at - from] == ':');
        false
    } else {
        assert forall|i: int| 0 <= i < rest.len() implies #[trigger] rest[i] != ':' by {
            assert(rest[i] == v@[from + i]);
        }
        true
    }
}

/// Whether a URL has a scheme, and no colon but the one behind the scheme.
fn plain_url(url: &str) -> (yes: bool)
    ensures
        yes == is_plain_url(url@),
{
    let v = chars_of(url);
    let n = find_from(&v, 0, ':');
    assert(url@.skip(0) =~= url@);
    let rest = text_of(&v, n, v.len());
    assert(rest@ =~= url@.skip(n as int));
    if n == 0 || !has_prefix(rest.as_str(), "://") {
        return false;
    }
    proof {
        reveal_strlit("://");
        assert(rest@.len() >= 3);
    }
    no_colon_from(&v, n + 1)
}

/// Whether the parts of a key can be told from the text that they make when they are
/// joined as they are.
fn plain_parts(source: &str, revision: &str, host: Option<&str>) -> (yes: bool)
    ensures
        yes == joins_plainly(source@, revision@, opt_str_view(host)),
{
    let url = chars_of(source);
    let rev = chars_of(revision);
    assert(source@.skip(0) =~= source@);
    assert(revision@.skip(0) =~= revision@);
    if !no_colon_from(&rev, 0) {
        return false;
    }
    plain_url(source) || (no_colon_from(&url, 0) && (host.is_none() || (!source.is_empty()
        && !has_prefix(revision, "//"))))
}

/// A text with its colons, and the signs that stand for them, written otherwise.
fn colons_replaced(s: &str) -> (out: String)
    ensures
        out@ == without_colons(s@),
{
    let mut out = String::new();
    for c in it: s.chars()
        invariant
            it.seq() == s@,
            out@ == without_colons(s@.take(it.index())),
    {
        let ghost before = out@;
        match c {
            ':' => out.append("%3A"),
            '%' => out.append("%25"),
            _ => out.push(c),
        }
        assert(s@.take(it.index() + 1).drop_last() =~= s@.take(it.index()));
        assert(s@.take(it.index() + 1).last() == c);
        assert(out@ =~= without_colons(s@.take(it.index() + 1)));
    }
    assert(s@.take(s@.len() as int) =~= s@);
    out
}

/// The text whose digest is the key.
pub fn content_key_input(gguf_url: &str, revision: &str, base_url: Option<&str>) -> (input: String)
    ensures
        input@ == key_input(gguf_url@, revision@, opt_str_view(base_url)),
{
    let source = source(gguf_url);
    let host = match base_url {
        Some(b) => if b.is_empty() {
            None
        } else {
            Some(b)
        },
        None => None,
    };
    let mut input = String::new();
    if plain_parts(source.as_str(), revision, host) {
        input.append(source.as_str());
        input.append(":");
        input.append(revision);
    } else {
        input.append(":");
        input.append(colons_replaced(source.as_str()).as_str());
        input.append(":");
        input.append(colons_replaced(revision).as_str());
    }
    assert(input@ =~= named_text(source@, revision@, bound_host(opt_str_view(base_url))));
    if let Some(b) = host {
        input.append(":");
        input.append(b);
    }
    assert(input@ =~= key_input(gguf_url@, revision@, opt_str_view(base_url)));
    input
}

/// The key that a digest is written as.
pub fn key_of_digest(digest: &Vec<u8>) -> (key: String)
    ensures
        key@ == hex_text(digest@),
{
    hex_encode(digest.as_slice())
}

/// A digest of 32 bytes is written as a content key that the tracker accepts, in
/// announces and in questions.
pub proof fn law_digest_is_content_key(data: Seq<u8>)
    requires
        data.len() == 32,
    ensures
        is_content_key(hex_text(data)),
        is_query_key(hex_text(data)),
{
    let t = hex_text(data);
    assert forall|i: int| 0 <= i < t.len() implies is_lower_hex_digit(#[trigger] t[i])
        && is_hex_digit(t[i]) by {
        assert(0 <= i / 2 < 32);
        assert(0 <= data[i / 2] as int / 16 < 16);
    }
}

/// Derive the stable P2P content key for a `gguf://` (or `hf://`) URL.
///
/// The key binds the source host, the canonical owner/repo/path and the
/// revision, so two peers only ever exchange content that is byte-for-byte the
/// same source object:
///   * `base_url` is included so the same path served by two different
///     Hugging Face-compatible mirrors never collides on one key.
///   * the path is **not** lowercased — Hugging Face files are git blobs and are
///     therefore case-sensitive, so `Model.gguf` and `model.gguf` must map to
///     distinct keys (otherwise a peer could serve the wrong file).
///   * the parts are joined so that no two different ones make the same text: a
///     colon inside of a path or a revision is not taken for one between them.
pub fn content_key(gguf_url: &str, revision: &str, base_url: Option<&str>) -> (key: String)
    ensures
        key@ == content_key_text(gguf_url@, revision@, opt_str_view(base_url)),
        is_content_key(key@),
        is_query_key(key@),
{
    let input = content_key_input(gguf_url, revision, base_url);
    let digest = sha256_digest(input.as_str().as_bytes());
    proof {
        law_digest_is_content_key(digest@);
    }
    key_of_digest(&digest)
}

} // verus!

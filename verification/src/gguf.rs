//! GGUF backend for downloading GGUF model files.
//!
//! This module supports the `gguf://` URL scheme on top of the Hugging Face one: it
//! validates that the requested file has a `.gguf` extension and rewrites the URL
//! scheme `gguf://` -> `hf://`.
//!
//! # URL Format
//!
//! The URL format mirrors the Hugging Face one but with the `gguf://` scheme:
//! `gguf://<repo_id>/<path>.gguf`
//!
//! Examples:
//! - `gguf://TheBloke/Llama-2-7B-GGUF/llama-2-7b.Q4_K_M.gguf`

use vstd::prelude::*;

use crate::text::{after_prefix, ascii_lower, ascii_lower_char, has_suffix, lower_ascii};

verus! {

/// SCHEME is the URL scheme for the GGUF backend.
pub const SCHEME: &'static str = "gguf";

/// HF_SCHEME is the URL scheme of the Hugging Face backend.
pub const HF_SCHEME: &'static str = "hf";

/// GGUF_EXTENSION is the required file extension for GGUF URLs (case-insensitive).
pub const GGUF_EXTENSION: &'static str = ".gguf";

/// Why the url crate could not read a URL.
#[verifier::external_type_specification]
#[verifier::external_body]
pub struct ExUrlParseError(url::ParseError);

/// Why a URL is none of the GGUF backend's.
pub enum GgufError {
    /// The URL names a file of another kind; the text says which URL.
    Unsupported(String),
    /// The URL has another scheme; the text is the URL.
    InvalidURI(String),
    /// The text is no URL.
    ParseError(url::ParseError),
}

/// A URL as the backend reads it: its path, and its text in normal form.
pub struct ParsedUrl {
    pub path: String,
    pub text: String,
}

/// The path and the normal form of a URL, as `Url::parse` of the url crate reads
/// it; none for a text that is no URL.
pub uninterp spec fn url_parts(raw: Seq<char>) -> Option<(Seq<char>, Seq<char>)>;

/// `Url::parse` of the url crate, with the `path` and the `as_str` of the URL that
/// it gives. What they are on a given text is not stated, only that they, and
/// whether the text is a URL, depend on the text alone.
#[verifier::external_body]
fn parse_url(raw: &str) -> (parsed: Result<ParsedUrl, url::ParseError>)
    ensures
        match parsed {
            Ok(u) => url_parts(raw@) == Some((u.path@, u.text@)),
            Err(_) => url_parts(raw@) is None,
        },
{
    let url = url::Url::parse(raw)?;
    Ok(ParsedUrl { path: url.path().to_string(), text: url.as_str().to_string() })
}

impl ParsedUrl {
    /// Reads a URL.
    pub fn parse(raw: &str) -> (parsed: Result<ParsedUrl, GgufError>)
        ensures
            match parsed {
                Ok(u) => url_parts(raw@) == Some((u.path@, u.text@)),
                Err(e) => url_parts(raw@) is None && e is ParseError,
            },
    {
        match parse_url(raw) {
            Ok(u) => Ok(u),
            Err(e) => Err(GgufError::ParseError(e)),
        }
    }
}

/// A path of a GGUF file: it ends with the extension, in either case.
pub open spec fn is_gguf_path(path: Seq<char>) -> bool {
    GGUF_EXTENSION@.is_suffix_of(ascii_lower(path))
}

/// What is said of a URL that names another kind of file.
pub open spec fn unsupported_text(url: Seq<char>) -> Seq<char> {
    "gguf backend only supports *.gguf files, got: "@ + url
}

/// The URL with the scheme `hf` in place of `gguf`; none for other schemes.
pub open spec fn hf_url(raw: Seq<char>) -> Option<Seq<char>> {
    let prefix = SCHEME@ + "://"@;
    if prefix.is_prefix_of(raw) {
        Some(HF_SCHEME@ + "://"@ + raw.skip(prefix.len() as int))
    } else {
        None
    }
}

/// The result is that of rewriting `raw`, whose path is `path` and whose normal
/// form is `text`.
pub open spec fn is_rewritten(
    raw: Seq<char>,
    path: Seq<char>,
    text: Seq<char>,
    result: Result<String, GgufError>,
) -> bool {
    if !is_gguf_path(path) {
        result matches Err(GgufError::Unsupported(m)) && m@ == unsupported_text(text)
    } else {
        match hf_url(raw) {
            Some(u) => result matches Ok(s) && s@ == u,
            None => result matches Err(GgufError::InvalidURI(m)) && m@ == raw,
        }
    }
}

/// Gguf is the GGUF backend: it turns `gguf://` URLs into URLs of the Hugging Face
/// backend.
pub struct Gguf {
    /// Scheme is the scheme of the GGUF backend.
    scheme: String,
}

impl Gguf {
    /// The scheme that the backend answers to.
    pub closed spec fn scheme_text(self) -> Seq<char> {
        self.scheme@
    }

    /// Create a new GGUF backend.
    pub fn new() -> (backend: Gguf)
        ensures
            backend.scheme_text() == SCHEME@,
    {
        Gguf { scheme: SCHEME.to_owned() }
    }

    /// Scheme returns the scheme of the backend.
    pub fn scheme(&self) -> (scheme: String)
        ensures
            scheme@ == self.scheme_text(),
    {
        self.scheme.clone()
    }

    /// Validates that the URL points to a `.gguf` file (case-insensitive),
    /// returning an `Unsupported` error otherwise.
    pub fn validate_gguf(url: &ParsedUrl) -> (result: Result<(), GgufError>)
        ensures
            result is Ok <==> is_gguf_path(url.path@),
            result matches Err(e) ==> (e matches GgufError::Unsupported(m) && m@
                == unsupported_text(url.text@)),
    {
        let path = lower_ascii(url.path.as_str());
        if has_suffix(path.as_str(), GGUF_EXTENSION) {
            Ok(())
        } else {
            let mut message = String::new();
            message.append("gguf backend only supports *.gguf files, got: ");
            message.append(url.text.as_str());
            assert(message@ =~= unsupported_text(url.text@));
            Err(GgufError::Unsupported(message))
        }
    }

    /// Rewrites a leading `gguf://` scheme to `hf://`, keeping the rest of the URL
    /// identical. Other schemes are rejected with an `InvalidURI` error.
    pub fn to_hf_url(raw: &str) -> (result: Result<String, GgufError>)
        ensures
            match hf_url(raw@) {
                Some(u) => result matches Ok(s) && s@ == u,
                None => result matches Err(GgufError::InvalidURI(m)) && m@ == raw@,
            },
    {
        let mut prefix = String::new();
        prefix.append(SCHEME);
        prefix.append("://");
        assert(prefix@ =~= SCHEME@ + "://"@);
        match after_prefix(raw, prefix.as_str()) {
            Some(rest) => {
                let mut out = String::new();
                out.append(HF_SCHEME);
                out.append("://");
                out.append(rest.as_str());
                assert(raw@.skip(prefix@.len() as int) =~= rest@);
                assert(out@ =~= HF_SCHEME@ + "://"@ + rest@);
                Ok(out)
            },
            None => Err(GgufError::InvalidURI(raw.to_owned())),
        }
    }

    /// Validates the `.gguf` rule on a URL that was read from `raw`, and rewrites
    /// `raw`.
    pub fn rewrite_parsed(raw: &str, url: &ParsedUrl) -> (result: Result<String, GgufError>)
        ensures
            is_rewritten(raw@, url.path@, url.text@, result),
    {
        match Self::validate_gguf(url) {
            Ok(_) => Self::to_hf_url(raw),
            Err(e) => Err(e),
        }
    }

    /// Parses, validates the `.gguf` rule, and rewrites the raw `gguf://` url into
    /// an `hf://` url ready to be passed to the Hugging Face backend.
    pub fn rewrite_url(raw: &str) -> (result: Result<String, GgufError>)
        ensures
            match url_parts(raw@) {
                Some((path, text)) => is_rewritten(raw@, path, text, result),
                None => result matches Err(GgufError::ParseError(_)),
            },
    {
        match ParsedUrl::parse(raw) {
            Ok(url) => Self::rewrite_parsed(raw, &url),
            Err(e) => Err(e),
        }
    }
}

/// Rewriting loses nothing: URLs that are rewritten to the same URL are the same.
pub proof fn law_rewriting_is_injective(a: Seq<char>, b: Seq<char>)
    requires
        hf_url(a) is Some,
        hf_url(a) == hf_url(b),
    ensures
        a == b,
{
    let prefix = SCHEME@ + "://"@;
    let hf = HF_SCHEME@ + "://"@;
    let n = prefix.len() as int;
    let x = hf + a.skip(n);
    let y = hf + b.skip(n);
    assert(x.skip(hf.len() as int) =~= a.skip(n));
    assert(y.skip(hf.len() as int) =~= b.skip(n));
    assert(a =~= prefix + a.skip(n));
    assert(b =~= prefix + b.skip(n));
}

/// What follows the scheme is kept as it is.
pub proof fn law_rewriting_keeps_the_rest(rest: Seq<char>)
    ensures
        hf_url(SCHEME@ + "://"@ + rest) == Some(HF_SCHEME@ + "://"@ + rest),
{
    let prefix = SCHEME@ + "://"@;
    let raw = prefix + rest;
    assert(raw.take(prefix.len() as int) =~= prefix);
    assert(raw.skip(prefix.len() as int) =~= rest);
}

/// A rewritten URL is not rewritten again.
pub proof fn law_rewritten_once(raw: Seq<char>)
    requires
        hf_url(raw) is Some,
    ensures
        hf_url(hf_url(raw)->0) is None,
{
    reveal_strlit("gguf");
    reveal_strlit("hf");
    let prefix = SCHEME@ + "://"@;
    let out = hf_url(raw)->0;
    assert(prefix[0] == 'g');
    assert(out[0] == 'h');
    if prefix.is_prefix_of(out) {
        assert(out.subrange(0, prefix.len() as int)[0] == 'g');
    }
}

/// A path names a GGUF file exactly if its last five characters are a dot and the
/// letters g, g, u and f, each in either case; so a path without the dot, such as
/// that of a repository, names none.
pub proof fn law_path_ends_with_the_extension(path: Seq<char>)
    ensures
        is_gguf_path(path) <==> ({
            let n = path.len() as int;
            &&& n >= 5
            &&& path[n - 5] == '.'
            &&& path[n - 4] == 'g' || path[n - 4] == 'G'
            &&& path[n - 3] == 'g' || path[n - 3] == 'G'
            &&& path[n - 2] == 'u' || path[n - 2] == 'U'
            &&& path[n - 1] == 'f' || path[n - 1] == 'F'
        }),
{
    reveal_strlit(".gguf");
    let n = path.len() as int;
    let lower = ascii_lower(path);
    if n >= 5 {
        let tail = lower.subrange(n - 5, n);
        assert(tail[0] == ascii_lower_char(path[n - 5]));
        assert(tail[1] == ascii_lower_char(path[n - 4]));
        assert(tail[2] == ascii_lower_char(path[n - 3]));
        assert(tail[3] == ascii_lower_char(path[n - 2]));
        assert(tail[4] == ascii_lower_char(path[n - 1]));
        if tail[0] == '.' && tail[1] == 'g' && tail[2] == 'g' && tail[3] == 'u' && tail[4] == 'f' {
            assert(tail =~= ".gguf"@);
        }
    }
}

/// A URL is rewritten exactly if it starts with `gguf://`, in lower case, and then
/// to one that starts with `hf://` and goes on as it did.
pub proof fn law_only_the_scheme_is_rewritten(raw: Seq<char>)
    ensures
        hf_url(raw) is Some <==> raw.len() >= 7 && raw.take(7) == seq![
            'g',
            'g',
            'u',
            'f',
            ':',
            '/',
            '/',
        ],
        hf_url(raw) matches Some(u) ==> u == seq!['h', 'f', ':', '/', '/'] + raw.skip(7),
{
    reveal_strlit("gguf");
    reveal_strlit("hf");
    reveal_strlit("://");
    let prefix = SCHEME@ + "://"@;
    assert(prefix =~= seq!['g', 'g', 'u', 'f', ':', '/', '/']);
    assert(HF_SCHEME@ + "://"@ =~= seq!['h', 'f', ':', '/', '/']);
    if raw.len() >= 7 {
        assert(raw.take(7) =~= raw.subrange(0, 7));
    }
}

/// What comes of a URL whose path and normal form are these: the rule on the
/// extension goes first, the rule on the scheme second, and only a URL that keeps
/// both is rewritten.
pub proof fn law_rewriting_checks_extension_then_scheme(
    raw: Seq<char>,
    path: Seq<char>,
    text: Seq<char>,
    result: Result<String, GgufError>,
)
    requires
        is_rewritten(raw, path, text, result),
    ensures
        result is Ok <==> is_gguf_path(path) && hf_url(raw) is Some,
        result matches Ok(u) ==> Some(u@) == hf_url(raw),
        !is_gguf_path(path) ==> (result matches Err(GgufError::Unsupported(m)) && m@
            == "gguf backend only supports *.gguf files, got: "@ + text),
        is_gguf_path(path) && hf_url(raw) is None ==> (result matches Err(
            GgufError::InvalidURI(m),
        ) && m@ == raw),
{
}

/// The case of the letters of a path makes no difference.
pub proof fn law_extension_in_either_case(a: Seq<char>, b: Seq<char>)
    requires
        ascii_lower(a) == ascii_lower(b),
    ensures
        is_gguf_path(a) == is_gguf_path(b),
{
}

} // verus!

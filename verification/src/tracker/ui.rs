//! Embedded registry UI: renders the live content listing as a server-side HTML
//! table (format badge, name, size, seeds, age), with a search box and a
//! format/category dropdown.
//!
//! Everything a peer announced (filename, format) is untrusted input and is
//! HTML-escaped at render time: announce validation only guarantees length caps
//! and no control characters, not markup safety.

use vstd::prelude::*;
use vstd::utf8::{decode_utf8, encode_utf8, is_char_boundary};

use crate::clock::now_secs;
use crate::text::{
    ascii_lower, byte_len, decimal, lower_ascii, opt_str_view, opt_view, push_decimal, same_text,
    stands_before, text_before, views,
};
use crate::tracker::store::{
    as_str, opt_ascii_lower, opt_lowercase, summary_views, ContentSummary, PeerStore, StoreModel,
    SummaryModel,
};
use crate::tracker::store_laws::{
    law_listed_is_known, law_listing_is_the_best, law_listing_is_unique,
};

verus! {

/// The style sheet of the page.
pub const STYLE: &'static str = r#"
body { font-family: ui-monospace, SFMono-Regular, Menlo, Consolas, monospace;
       margin: 2rem auto; max-width: 72rem; padding: 0 1rem; color: #1f2328; }
h1 { font-size: 1.3rem; }
form { margin: 1rem 0; display: flex; gap: .5rem; flex-wrap: wrap; }
input, select, button { font: inherit; padding: .3rem .5rem; }
table { border-collapse: collapse; width: 100%; }
th, td { border: 1px solid #d0d7de; padding: .45rem .6rem; text-align: left; }
th { background: #f6f8fa; }
td.num { text-align: right; }
.badge { display: inline-block; padding: .1rem .45rem; border-radius: .4rem;
         font-size: .75rem; font-weight: 700; background: #eaeef2; color: #57606a; }
.badge-gguf { background: #ddf4ff; color: #0969da; }
.badge-safetensors { background: #dafbe1; color: #1a7f37; }
.badge-bin, .badge-pt, .badge-onnx { background: #fff8c5; color: #9a6700; }
.seeds { color: #1a7f37; font-weight: 700; }
.key { color: #57606a; font-size: .75rem; }
.empty { color: #57606a; padding: 2rem 0; }
footer { margin-top: 1rem; color: #57606a; font-size: .8rem; }
"#;

/// What stands for a character in HTML text and in a quoted attribute value.
pub open spec fn escaped_char(c: char) -> Seq<char> {
    if c == '&' {
        "&amp;"@
    } else if c == '<' {
        "&lt;"@
    } else if c == '>' {
        "&gt;"@
    } else if c == '"' {
        "&quot;"@
    } else if c == '\'' {
        "&#39;"@
    } else {
        seq![c]
    }
}

/// A text with each character as it stands in HTML.
pub open spec fn escaped(s: Seq<char>) -> Seq<char>
    decreases s.len(),
{
    if s.len() == 0 {
        Seq::empty()
    } else {
        escaped(s.drop_last()) + escaped_char(s.last())
    }
}

/// Minimal HTML escaping for untrusted text rendered into element content or
/// double-quoted attribute values.
pub fn escape(s: &str) -> (out: String)
    ensures
        out@ == escaped(s@),
{
    let mut out = String::new();
    for c in it: s.chars()
        invariant
            it.seq() == s@,
            out@ == escaped(s@.take(it.index())),
    {
        let ghost before = out@;
        match c {
            '&' => out.append("&amp;"),
            '<' => out.append("&lt;"),
            '>' => out.append("&gt;"),
            '"' => out.append("&quot;"),
            '\'' => out.append("&#39;"),
            _ => out.push(c),
        }
        assert(out@ =~= before + escaped_char(c));
        assert(s@.take(it.index() + 1).drop_last() =~= s@.take(it.index()));
        assert(s@.take(it.index() + 1).last() == c);
    }
    assert(s@.take(s@.len() as int) =~= s@);
    out
}

/// The nearest whole number to `num / den`, the even one of two as near.
pub open spec fn round_half_even(num: nat, den: nat) -> nat {
    let q = num / den;
    let r = num % den;
    if 2 * r < den || (2 * r == den && q % 2 == 0) {
        q
    } else {
        q + 1
    }
}

/// The distance between neighbouring double-precision numbers at `n`: one below
/// two to the 53rd, and twice as much with each further binary digit.
pub open spec fn double_step(n: nat) -> nat
    decreases n,
{
    if n < 0x20_0000_0000_0000 {
        1
    } else {
        2 * double_step(n / 2)
    }
}

/// A whole number rounded to double precision, the even one of two as near.
pub open spec fn as_double(n: nat) -> nat {
    round_half_even(n, double_step(n)) * double_step(n)
}

/// Which of the units B, KB, MB, GB, TB a size is given in.
pub open spec fn unit_of(v: nat) -> nat {
    if v < 0x400 {
        0
    } else if v < 0x10_0000 {
        1
    } else if v < 0x4000_0000 {
        2
    } else if v < 0x100_0000_0000 {
        3
    } else {
        4
    }
}

/// The bytes of a unit.
pub open spec fn unit_bytes(unit: nat) -> nat {
    if unit == 0 {
        1
    } else if unit == 1 {
        0x400
    } else if unit == 2 {
        0x10_0000
    } else if unit == 3 {
        0x4000_0000
    } else {
        0x100_0000_0000
    }
}

/// The name of a unit, after a space.
pub open spec fn unit_name(unit: nat) -> Seq<char> {
    if unit == 0 {
        " B"@
    } else if unit == 1 {
        " KB"@
    } else if unit == 2 {
        " MB"@
    } else if unit == 3 {
        " GB"@
    } else {
        " TB"@
    }
}

/// A byte count as text: whole bytes below a kibibyte, else the double-precision
/// count in its unit, rounded to one decimal, the even one of two as near.
pub open spec fn human_size_text(bytes: nat) -> Seq<char> {
    let v = as_double(bytes);
    let unit = unit_of(v);
    if unit == 0 {
        decimal(bytes) + unit_name(0)
    } else {
        let tenths = round_half_even(10 * v, unit_bytes(unit));
        decimal(tenths / 10) + "."@ + decimal(tenths % 10) + unit_name(unit)
    }
}

/// The nearest whole number to `num / den`, the even one of two as near.
fn div_round(num: u128, den: u128) -> (q: u128)
    requires
        0 < den < 0x1_0000_0000_0000_0000,
        num < 0x1_0000_0000_0000_0000_0000,
    ensures
        q == round_half_even(num as nat, den as nat),
        q <= num + 1,
{
    let q: u128 = num / den;
    let r: u128 = num % den;
    assert(q <= num) by (nonlinear_arith)
        requires
            q == num / den,
            den > 0,
    ;
    if 2 * r < den || (2 * r == den && q % 2 == 0) {
        q
    } else {
        q + 1
    }
}

/// The distance between neighbouring double-precision numbers at `n`.
fn step_of(n: u64) -> (step: u64)
    ensures
        step == double_step(n as nat),
        0 < step <= 4096,
{
    let mut m: u64 = n;
    let mut step: u64 = 1;
    while m >= 0x20_0000_0000_0000
        invariant
            double_step(n as nat) == step * double_step(m as nat),
            0 < step <= 4096,
            m * step <= n,
        decreases m,
    {
        assert(step < 2048) by (nonlinear_arith)
            requires
                m * step <= n,
                n < 0x1_0000_0000_0000_0000,
                m >= 0x20_0000_0000_0000,
        ;
        let half: u64 = m / 2;
        assert(half * (2 * step) <= m * step && step * (2 * double_step(half as nat)) == (2 * step)
            * double_step(half as nat)) by (nonlinear_arith)
            requires
                half == m / 2,
                step > 0,
        ;
        m = half;
        step = 2 * step;
    }
    assert(step * double_step(m as nat) == step) by (nonlinear_arith)
        requires
            double_step(m as nat) == 1,
    ;
    step
}

/// Humanizes a byte count ("1.6 GB", "512.0 MB", "740 B").
pub fn human_size(bytes: u64) -> (out: String)
    ensures
        out@ == human_size_text(bytes as nat),
{
    let step = step_of(bytes);
    let whole = div_round(bytes as u128, step as u128);
    assert(whole * step <= 0x1000_0000_0000_0000_0000) by (nonlinear_arith)
        requires
            whole <= 0x1_0000_0000_0000_0000,
            step <= 4096,
    ;
    let v: u128 = whole * (step as u128);
    let mut out = String::new();
    if v < 0x400 {
        push_decimal(&mut out, bytes);
        out.append(" B");
        assert(out@ =~= human_size_text(bytes as nat));
        return out;
    }
    let (den, name): (u128, &str) = if v < 0x10_0000 {
        (0x400, " KB")
    } else if v < 0x4000_0000 {
        (0x10_0000, " MB")
    } else if v < 0x100_0000_0000 {
        (0x4000_0000, " GB")
    } else {
        (0x100_0000_0000, " TB")
    };
    let tenths = div_round(10 * v, den);
    push_decimal(&mut out, (tenths / 10) as u64);
    out.append(".");
    push_decimal(&mut out, (tenths % 10) as u64);
    out.append(name);
    assert(out@ =~= human_size_text(bytes as nat));
    out
}

/// How long ago `then` was at `now`, as text: nothing below a minute, else whole
/// minutes, hours or days.
pub open spec fn age_text(now: u64, then: u64) -> Seq<char> {
    let secs: nat = if now >= then {
        (now - then) as nat
    } else {
        0
    };
    if secs < 60 {
        "just now"@
    } else if secs < 3600 {
        decimal(secs / 60) + " min ago"@
    } else if secs < 86_400 {
        decimal(secs / 3600) + " h ago"@
    } else {
        decimal(secs / 86_400) + " d ago"@
    }
}

/// Renders a unix timestamp as a coarse age ("3 d ago", "5 min ago").
pub fn age(now: u64, then: u64) -> (out: String)
    ensures
        out@ == age_text(now, then),
{
    let secs = now.saturating_sub(then);
    let mut out = String::new();
    if secs < 60 {
        out.append("just now");
    } else if secs < 3600 {
        push_decimal(&mut out, secs / 60);
        out.append(" min ago");
    } else if secs < 86_400 {
        push_decimal(&mut out, secs / 3600);
        out.append(" h ago");
    } else {
        push_decimal(&mut out, secs / 86_400);
        out.append(" d ago");
    }
    assert(out@ =~= age_text(now, then));
    out
}

/// The upper case of a text, as `str::to_uppercase` of std gives it.
pub uninterp spec fn uppercase(s: Seq<char>) -> Seq<char>;

/// `str::to_uppercase` of std maps every character by the Unicode tables. The
/// result is a function of the text alone; what it is on a given text is not
/// stated.
pub assume_specification[ str::to_uppercase ](s: &str) -> (upper: String)
    ensures
        upper@ == uppercase(s@),
;

/// The formats whose badge has a colour of its own.
pub open spec fn has_own_colour(format: Seq<char>) -> bool {
    format == "gguf"@ || format == "safetensors"@ || format == "bin"@ || format == "pt"@ || format
        == "onnx"@
}

/// The badge of a format, whose upper case is `upper`.
pub open spec fn format_badge_text(format: Seq<char>, upper: Seq<char>) -> Seq<char> {
    "<span class=\""@ + (if has_own_colour(format) {
        "badge badge-"@ + format
    } else {
        "badge"@
    }) + "\">"@ + escaped(upper) + "</span>"@
}

/// The badge of a content's format.
pub open spec fn badge_text(format: Option<Seq<char>>) -> Seq<char> {
    match format {
        Some(f) => format_badge_text(f, uppercase(f)),
        None => "<span class=\"badge\">?</span>"@,
    }
}

/// The badge of a format, whose upper case is `upper`.
pub fn format_badge(format: &str, upper: &str) -> (out: String)
    ensures
        out@ == format_badge_text(format@, upper@),
{
    let mut out = String::new();
    out.append("<span class=\"");
    if same_text(format, "gguf") || same_text(format, "safetensors") || same_text(format, "bin")
        || same_text(format, "pt") || same_text(format, "onnx") {
        out.append("badge badge-");
        out.append(format);
    } else {
        out.append("badge");
    }
    out.append("\">");
    out.append(escape(upper).as_str());
    out.append("</span>");
    assert(out@ =~= format_badge_text(format@, upper@));
    out
}

/// The badge of a content's format.
pub fn badge(format: Option<&str>) -> (out: String)
    ensures
        out@ == badge_text(opt_str_view(format)),
{
    match format {
        Some(f) => format_badge(f, f.to_uppercase().as_str()),
        None => "<span class=\"badge\">?</span>".to_owned(),
    }
}

/// A key can be shortened: its first 16 bytes end between two characters.
pub open spec fn can_shorten(key: Seq<char>) -> bool {
    encode_utf8(key).len() <= 16 || is_char_boundary(encode_utf8(key), 16)
}

/// Whether a key can be shortened.
fn shortens(key: &str) -> (yes: bool)
    ensures
        yes == can_shorten(key@),
{
    byte_len(key) <= 16 || key.is_char_boundary(16)
}

/// The first 16 bytes of a key.
pub open spec fn short_key_text(key: Seq<char>) -> Seq<char> {
    if encode_utf8(key).len() <= 16 {
        key
    } else {
        decode_utf8(encode_utf8(key).take(16))
    }
}

/// The first 16 bytes of a key.
pub fn short_key(key: &str) -> (out: String)
    requires
        can_shorten(key@),
    ensures
        out@ == short_key_text(key@),
{
    if byte_len(key) <= 16 {
        return key.to_owned();
    }
    let (first, _rest) = key.split_at(16);
    proof {
        vstd::utf8::encode_utf8_decode_utf8(first@);
        assert(encode_utf8(key@).take(16) =~= encode_utf8(key@).subrange(0, 16));
    }
    first.to_owned()
}

/// The row of a content in the table of the page, with its badge.
pub open spec fn row_text_with(now: u64, c: SummaryModel, badge: Seq<char>) -> Seq<char> {
    let name = match c.filename {
        Some(f) => f,
        None => "(unnamed)"@,
    };
    let size = match c.size {
        Some(n) => human_size_text(n as nat),
        None => "\u{2014}"@,
    };
    "<tr><td>"@ + badge + "</td><td>"@ + escaped(name) + "<br><span class=\"key\" title=\""@
        + escaped(c.content_key) + "\">"@ + escaped(short_key_text(c.content_key))
        + "\u{2026}</span></td><td class=\"num\">"@ + escaped(size)
        + "</td><td class=\"num seeds\">"@ + decimal(c.providers) + "</td><td>"@ + age_text(
        now,
        c.first_seen,
    ) + "</td></tr>"@
}

/// The row of a content in the table of the page.
pub open spec fn row_text(now: u64, c: SummaryModel) -> Seq<char> {
    row_text_with(now, c, badge_text(c.format))
}

/// The row of a content in the table of the page, with its badge.
pub fn row_with(now: u64, c: &ContentSummary, badge: &str) -> (out: String)
    requires
        can_shorten(c.content_key@),
    ensures
        out@ == row_text_with(now, c@, badge@),
{
    let name = match &c.filename {
        Some(f) => escape(f.as_str()),
        None => escape("(unnamed)"),
    };
    let size = match c.size {
        Some(n) => escape(human_size(n).as_str()),
        None => escape("\u{2014}"),
    };
    let mut out = String::new();
    out.append("<tr><td>");
    out.append(badge);
    out.append("</td><td>");
    out.append(name.as_str());
    out.append("<br><span class=\"key\" title=\"");
    out.append(escape(c.content_key.as_str()).as_str());
    out.append("\">");
    out.append(escape(short_key(c.content_key.as_str()).as_str()).as_str());
    out.append("\u{2026}</span></td><td class=\"num\">");
    out.append(size.as_str());
    out.append("</td><td class=\"num seeds\">");
    push_decimal(&mut out, c.providers as u64);
    out.append("</td><td>");
    out.append(age(now, c.first_seen).as_str());
    out.append("</td></tr>");
    assert(out@ =~= row_text_with(now, c@, badge@));
    out
}

/// The row of a content in the table of the page.
pub fn row(now: u64, c: &ContentSummary) -> (out: String)
    requires
        can_shorten(c.content_key@),
    ensures
        out@ == row_text(now, c@),
{
    let badge = badge(as_str(&c.format));
    row_with(now, c, badge.as_str())
}

/// How many of the first texts stand before `x`.
pub open spec fn place_of(s: Seq<Seq<char>>, x: Seq<char>) -> int
    decreases s.len(),
{
    if s.len() > 0 && text_before(s[0], x) {
        1 + place_of(s.drop_first(), x)
    } else {
        0
    }
}

/// The sorted texts with `x` in its place, where it is not among them yet.
pub open spec fn with_facet(s: Seq<Seq<char>>, x: Seq<char>) -> Seq<Seq<char>> {
    let at = place_of(s, x);
    if at < s.len() && s[at] == x {
        s
    } else {
        s.insert(at, x)
    }
}

/// The formats of the contents, in lower case, sorted, each once.
pub open spec fn facets(all: Seq<SummaryModel>) -> Seq<Seq<char>>
    decreases all.len(),
{
    if all.len() == 0 {
        Seq::empty()
    } else {
        match all.last().format {
            Some(f) => with_facet(facets(all.drop_last()), ascii_lower(f)),
            None => facets(all.drop_last()),
        }
    }
}

/// `place_of` counts within the sequence.
proof fn lemma_place_of(s: Seq<Seq<char>>, x: Seq<char>)
    ensures
        0 <= place_of(s, x) <= s.len(),
    decreases s.len(),
{
    if s.len() > 0 && text_before(s[0], x) {
        lemma_place_of(s.drop_first(), x);
    }
}

/// The formats of the contents, in lower case, sorted, each once.
pub fn format_facets(all: &Vec<ContentSummary>) -> (out: Vec<String>)
    ensures
        views(out@) == facets(summary_views(all@)),
{
    let ghost s = summary_views(all@);
    let mut out: Vec<String> = Vec::new();
    assert(views(out@) =~= facets(s.take(0)));
    for i in 0..all.len()
        invariant
            s == summary_views(all@),
            views(out@) == facets(s.take(i as int)),
    {
        assert(s.take(i + 1).drop_last() =~= s.take(i as int));
        assert(s.take(i + 1).last() == all@[i as int]@);
        if let Some(f) = &all[i].format {
            let x = lower_ascii(f.as_str());
            let ghost before = views(out@);
            proof {
                lemma_place_of(before, x@);
                assert(before.skip(0) =~= before);
            }
            let mut at: usize = 0;
            while at < out.len() && stands_before(out[at].as_str(), x.as_str())
                invariant
                    before == views(out@),
                    at <= out.len(),
                    place_of(before, x@) == at + place_of(before.skip(at as int), x@),
                decreases out.len() - at,
            {
                assert(before.skip(at as int)[0] == out@[at as int]@);
                assert(before.skip(at as int).drop_first() =~= before.skip(at + 1));
                at += 1;
            }
            assert(place_of(before, x@) == at) by {
                if at < out.len() {
                    assert(before.skip(at as int)[0] == out@[at as int]@);
                }
            }
            if at == out.len() || !same_text(out[at].as_str(), x.as_str()) {
                out.insert(at, x);
                assert(views(out@) =~= before.insert(at as int, x@));
            }
        }
    }
    assert(s.take(s.len() as int) =~= s);
    out
}

/// An entry of the format dropdown.
pub open spec fn option_text(format: Seq<char>, upper: Seq<char>, selected: bool) -> Seq<char> {
    "<option value=\""@ + escaped(format) + "\""@ + (if selected {
        " selected"@
    } else {
        ""@
    }) + ">"@ + escaped(upper) + "</option>"@
}

/// An entry of the format dropdown.
pub fn option_tag(format: &str, upper: &str, selected: bool) -> (out: String)
    ensures
        out@ == option_text(format@, upper@, selected),
{
    let mut out = String::new();
    out.append("<option value=\"");
    out.append(escape(format).as_str());
    out.append("\"");
    if selected {
        out.append(" selected");
    } else {
        out.append("");
    }
    out.append(">");
    out.append(escape(upper).as_str());
    out.append("</option>");
    assert(out@ =~= option_text(format@, upper@, selected));
    out
}

/// The entry of a format in the dropdown, where `chosen` is selected.
pub open spec fn entry_text(format: Seq<char>, chosen: Option<Seq<char>>) -> Seq<char> {
    option_text(format, uppercase(format), chosen == Some(format))
}

/// The entries of the format dropdown, of which `chosen` is selected.
pub open spec fn options_text(formats: Seq<Seq<char>>, chosen: Option<Seq<char>>) -> Seq<char>
    decreases formats.len(),
{
    if formats.len() == 0 {
        Seq::empty()
    } else {
        options_text(formats.drop_last(), chosen) + entry_text(formats.last(), chosen)
    }
}

/// The entries of the format dropdown, of which `chosen` is selected.
fn options(formats: &Vec<String>, chosen: Option<&str>) -> (out: String)
    ensures
        out@ == options_text(views(formats@), opt_str_view(chosen)),
{
    let ghost s = views(formats@);
    let mut out = String::new();
    for i in 0..formats.len()
        invariant
            s == views(formats@),
            out@ == options_text(s.take(i as int), opt_str_view(chosen)),
    {
        assert(s.take(i + 1).drop_last() =~= s.take(i as int));
        assert(s.take(i + 1).last() == formats@[i as int]@);
        let selected = match chosen {
            Some(c) => same_text(formats[i].as_str(), c),
            None => false,
        };
        let tag = option_tag(
            formats[i].as_str(),
            formats[i].as_str().to_uppercase().as_str(),
            selected,
        );
        out.append(tag.as_str());
    }
    assert(s.take(s.len() as int) =~= s);
    out
}

/// The rows of the table of the page.
pub open spec fn rows_text(now: u64, rows: Seq<SummaryModel>) -> Seq<char>
    decreases rows.len(),
{
    if rows.len() == 0 {
        Seq::empty()
    } else {
        rows_text(now, rows.drop_last()) + row_text(now, rows.last())
    }
}

/// The note that there is nothing to show.
pub open spec fn empty_note() -> Seq<char> {
    "<p class=\"empty\">Nothing is seeded (or matches the filter) right now. Pull a file with dfget and it will appear here.</p>"@
}

/// The table of the page, or a note that there is nothing to show.
pub open spec fn body_text(now: u64, rows: Seq<SummaryModel>) -> Seq<char> {
    if rows.len() == 0 {
        empty_note()
    } else {
        "<table><thead><tr><th>Type</th><th>Name (order by: seeds \u{2193})</th><th>Size</th><th>Seeds</th><th>First seen</th></tr></thead><tbody>"@
            + rows_text(now, rows) + "</tbody></table>"@
    }
}

/// The table of the page, or a note that there is nothing to show.
fn body(now: u64, rows: &Vec<ContentSummary>) -> (out: String)
    requires
        forall|i: int| 0 <= i < rows.len() ==> can_shorten((#[trigger] rows@[i]).content_key@),
    ensures
        out@ == body_text(now, summary_views(rows@)),
{
    let ghost s = summary_views(rows@);
    let mut out = String::new();
    if rows.len() == 0 {
        out.append(
            "<p class=\"empty\">Nothing is seeded (or matches the filter) right now. Pull a file with dfget and it will appear here.</p>",
        );
        assert(out@ =~= body_text(now, s));
        return out;
    }
    out.append(
        "<table><thead><tr><th>Type</th><th>Name (order by: seeds \u{2193})</th><th>Size</th><th>Seeds</th><th>First seen</th></tr></thead><tbody>",
    );
    let ghost head = out@;
    assert(out@ =~= head + rows_text(now, s.take(0)));
    for i in 0..rows.len()
        invariant
            s == summary_views(rows@),
            out@ == head + rows_text(now, s.take(i as int)),
            forall|j: int| 0 <= j < rows.len() ==> can_shorten((#[trigger] rows@[j]).content_key@),
    {
        assert(s.take(i + 1).drop_last() =~= s.take(i as int));
        assert(s.take(i + 1).last() == rows@[i as int]@);
        let one = row(now, &rows[i]);
        out.append(one.as_str());
        assert(out@ =~= head + rows_text(now, s.take(i + 1)));
    }
    assert(s.take(s.len() as int) =~= s);
    out.append("</tbody></table>");
    assert(out@ =~= body_text(now, s));
    out
}

/// The page up to its table: its search text and its dropdown entries.
pub open spec fn head_text(q: Seq<char>, options: Seq<char>) -> Seq<char> {
    "<!doctype html>\n<html lang=\"en\"><head><meta charset=\"utf-8\">\n<meta name=\"viewport\" content=\"width=device-width, initial-scale=1\">\n<title>Dragonfly GGUF tracker registry</title>\n<style>"@
        + STYLE@
        + "</style></head>\n<body>\n<h1>&#128009; Dragonfly P2P registry</h1>\n<form method=\"get\" action=\"/\">\n  <input type=\"search\" name=\"q\" placeholder=\"search filename&#8230;\" value=\""@
        + escaped(q)
        + "\">\n  <select name=\"format\">\n    <option value=\"\">all types</option>\n    "@
        + options + "\n  </select>\n  <button type=\"submit\">Filter</button>\n</form>\n"@
}

/// The page behind its table of `count` rows.
pub open spec fn footer_text(count: nat) -> Seq<char> {
    "\n<footer>"@ + decimal(count)
        + " listed &middot; live view of what the swarm is seeding &middot;\nAPI: <code>GET /contents?format=&amp;q=&amp;limit=</code></footer>\n</body></html>"@
}

/// The page around its search text, its dropdown entries, and its table of
/// `count` rows.
pub open spec fn frame_text(
    q: Seq<char>,
    options: Seq<char>,
    body: Seq<char>,
    count: nat,
) -> Seq<char> {
    head_text(q, options) + body + footer_text(count)
}

/// The page around its search text, its dropdown entries, and its table of
/// `count` rows.
pub fn frame(q: &str, options: &str, body: &str, count: usize) -> (out: String)
    ensures
        out@ == frame_text(q@, options@, body@, count as nat),
{
    let mut out = String::new();
    out.append(
        "<!doctype html>\n<html lang=\"en\"><head><meta charset=\"utf-8\">\n<meta name=\"viewport\" content=\"width=device-width, initial-scale=1\">\n<title>Dragonfly GGUF tracker registry</title>\n<style>",
    );
    out.append(STYLE);
    out.append(
        "</style></head>\n<body>\n<h1>&#128009; Dragonfly P2P registry</h1>\n<form method=\"get\" action=\"/\">\n  <input type=\"search\" name=\"q\" placeholder=\"search filename&#8230;\" value=\"",
    );
    out.append(escape(q).as_str());
    out.append(
        "\">\n  <select name=\"format\">\n    <option value=\"\">all types</option>\n    ",
    );
    out.append(options);
    out.append("\n  </select>\n  <button type=\"submit\">Filter</button>\n</form>\n");
    out.append(body);
    out.append("\n<footer>");
    push_decimal(&mut out, count as u64);
    out.append(
        " listed &middot; live view of what the swarm is seeding &middot;\nAPI: <code>GET /contents?format=&amp;q=&amp;limit=</code></footer>\n</body></html>",
    );
    assert(out@ =~= frame_text(q@, options@, body@, count as nat));
    out
}

/// The page that shows `rows` at second `now`, with the formats of `all` in its
/// dropdown.
pub open spec fn page_text(
    now: u64,
    all: Seq<SummaryModel>,
    rows: Seq<SummaryModel>,
    format: Option<Seq<char>>,
    q: Option<Seq<char>>,
) -> Seq<char> {
    frame_text(
        match q {
            Some(t) => t,
            None => ""@,
        },
        options_text(facets(all), opt_ascii_lower(format)),
        body_text(now, rows),
        rows.len(),
    )
}

/// Renders `rows` as of second `now`, with the formats of `all` in the dropdown.
pub fn render_page(
    now: u64,
    all: &Vec<ContentSummary>,
    rows: &Vec<ContentSummary>,
    format: Option<&str>,
    q: Option<&str>,
) -> (out: String)
    requires
        forall|i: int| 0 <= i < rows.len() ==> can_shorten((#[trigger] rows@[i]).content_key@),
    ensures
        out@ == page_text(
            now,
            summary_views(all@),
            summary_views(rows@),
            opt_str_view(format),
            opt_str_view(q),
        ),
{
    let formats = format_facets(all);
    let chosen = match format {
        Some(f) => Some(lower_ascii(f)),
        None => None,
    };
    let options = options(&formats, as_str(&chosen));
    let body = body(now, rows);
    let q = match q {
        Some(t) => t,
        None => "",
    };
    frame(q, options.as_str(), body.as_str(), rows.len())
}

/// Every key of the store can be shortened.
pub open spec fn keys_can_shorten(store: StoreModel) -> bool {
    forall|k: Seq<char>| #[trigger] store.peers.contains_key(k) ==> can_shorten(k)
}

/// Whether every key of the store can be shortened.
pub fn has_short_keys(store: &PeerStore) -> (ok: bool)
    ensures
        ok == keys_can_shorten(store@),
{
    let keys = store.known_keys();
    let ghost names = views(keys@);
    for n in 0..keys.len()
        invariant
            names == views(keys@),
            names.to_set() == store@.peers.dom(),
            forall|m: int| 0 <= m < n ==> can_shorten(#[trigger] names[m]),
    {
        let key = keys[n].as_str();
        assert(names[n as int] == key@);
        if !shortens(key) {
            assert(names.to_set().contains(key@));
            assert(store@.peers.contains_key(key@));
            return false;
        }
    }
    assert forall|k: Seq<char>| #[trigger] store@.peers.contains_key(k) implies can_shorten(k) by {
        assert(names.to_set().contains(k));
        let m = choose|m: int| 0 <= m < names.len() && names[m] == k;
        assert(can_shorten(names[m]));
    }
    true
}

/// `out` is a page of the store as of second `now`: it shows a listing by the
/// filters, and the formats of an unfiltered listing of the same length. The
/// filters of the listing are given in lower case.
pub open spec fn is_page(
    store: StoreModel,
    format: Option<Seq<char>>,
    q: Option<Seq<char>>,
    q_lower: Option<Seq<char>>,
    limit: nat,
    now: u64,
    out: Seq<char>,
) -> bool {
    exists|all: Seq<SummaryModel>, rows: Seq<SummaryModel>|
        store.is_listing(None, None, limit, store.cutoff(now), all) && store.is_listing(
            opt_ascii_lower(format),
            q_lower,
            limit,
            store.cutoff(now),
            rows,
        ) && out == #[trigger] page_text(now, all, rows, format, q)
}

/// `out` is a page of the store as of some second.
pub open spec fn is_current_page(
    store: StoreModel,
    format: Option<Seq<char>>,
    q: Option<Seq<char>>,
    q_lower: Option<Seq<char>>,
    limit: nat,
    out: Seq<char>,
) -> bool {
    exists|now: u64| #[trigger] is_page(store, format, q, q_lower, limit, now, out)
}

/// The keys of all rows can be shortened.
pub open spec fn rows_can_shorten(rows: Seq<SummaryModel>) -> bool {
    forall|i: int| 0 <= i < rows.len() ==> can_shorten((#[trigger] rows[i]).content_key)
}

/// The page of the store as of second `now` can be rendered: every key that it lists
/// by the filters, up to the limit, can be shortened.
pub open spec fn can_render(
    store: StoreModel,
    format: Option<Seq<char>>,
    q_lower: Option<Seq<char>>,
    limit: nat,
    now: u64,
) -> bool {
    forall|rows: Seq<SummaryModel>| #[trigger]
        store.is_listing(opt_ascii_lower(format), q_lower, limit, store.cutoff(now), rows)
            ==> rows_can_shorten(rows)
}

/// Where every key of the store can be shortened, every page of it can be rendered.
pub proof fn lemma_short_keys_render(
    store: StoreModel,
    format: Option<Seq<char>>,
    q_lower: Option<Seq<char>>,
    limit: nat,
    now: u64,
)
    requires
        keys_can_shorten(store),
    ensures
        can_render(store, format, q_lower, limit, now),
{
    let f = opt_ascii_lower(format);
    let cutoff = store.cutoff(now);
    assert forall|rows: Seq<SummaryModel>| #[trigger]
        store.is_listing(f, q_lower, limit, cutoff, rows) implies rows_can_shorten(rows) by {
        law_listing_is_the_best(store, f, q_lower, limit, cutoff, rows, Seq::empty());
        assert forall|i: int| 0 <= i < rows.len() implies can_shorten(
            (#[trigger] rows[i]).content_key,
        ) by {
            law_listed_is_known(store, rows[i].content_key, f, q_lower, cutoff);
        }
    }
}

/// Renders the full registry page as of second `now`; `q_lower` is the search
/// text in lower case.
pub fn page_at(
    store: &PeerStore,
    format: Option<&str>,
    q: Option<&str>,
    q_lower: Option<&str>,
    limit: usize,
    now: u64,
) -> (out: String)
    requires
        can_render(store@, opt_str_view(format), opt_str_view(q_lower), limit as nat, now),
    ensures
        is_page(
            store@,
            opt_str_view(format),
            opt_str_view(q),
            opt_str_view(q_lower),
            limit as nat,
            now,
            out@,
        ),
{
    // Facet options come from the unfiltered listing so a filter never hides
    // the other categories from the dropdown.
    let all = store.list_contents_at(None, None, limit, now);
    let rows = filtered(store, format, q_lower, limit, now);
    proof {
        let s = summary_views(rows@);
        assert(rows_can_shorten(s));
        assert forall|i: int| 0 <= i < rows.len() implies can_shorten(
            (#[trigger] rows@[i]).content_key@,
        ) by {
            assert(s[i].content_key == rows@[i].content_key@);
        }
    }
    render_page(now, &all, &rows, format, q)
}

/// The rows of the page as of second `now`.
fn filtered(
    store: &PeerStore,
    format: Option<&str>,
    q_lower: Option<&str>,
    limit: usize,
    now: u64,
) -> (rows: Vec<ContentSummary>)
    ensures
        store@.is_listing(
            opt_ascii_lower(opt_str_view(format)),
            opt_str_view(q_lower),
            limit as nat,
            store@.cutoff(now),
            summary_views(rows@),
        ),
{
    let wanted = match format {
        Some(f) => Some(lower_ascii(f)),
        None => None,
    };
    store.list_contents_at(as_str(&wanted), q_lower, limit, now)
}

/// Renders the full registry page. `format`/`q` mirror the listing's query
/// parameters and pre-fill the filter controls.
pub fn page(store: &PeerStore, format: Option<&str>, q: Option<&str>, limit: usize) -> (out: String)
    requires
        forall|now: u64| #[trigger]
            can_render(
                store@,
                opt_str_view(format),
                opt_lowercase(opt_str_view(q)),
                limit as nat,
                now,
            ),
    ensures
        is_current_page(
            store@,
            opt_str_view(format),
            opt_str_view(q),
            opt_lowercase(opt_str_view(q)),
            limit as nat,
            out@,
        ),
{
    let now = now_secs();
    let q_lower = match q {
        Some(t) => Some(t.to_lowercase()),
        None => None,
    };
    page_at(store, format, q, as_str(&q_lower), limit, now)
}

/// `out` is a page of the store as of second `now`, or none where it cannot be
/// rendered.
pub open spec fn is_page_if_any(
    store: StoreModel,
    format: Option<Seq<char>>,
    q: Option<Seq<char>>,
    q_lower: Option<Seq<char>>,
    limit: nat,
    now: u64,
    out: Option<Seq<char>>,
) -> bool {
    match out {
        Some(text) => can_render(store, format, q_lower, limit, now) && is_page(
            store,
            format,
            q,
            q_lower,
            limit,
            now,
            text,
        ),
        None => !can_render(store, format, q_lower, limit, now),
    }
}

/// Renders the full registry page as of second `now`, unless a key that it lists
/// cannot be shortened; `q_lower` is the search text in lower case.
pub fn try_page_at(
    store: &PeerStore,
    format: Option<&str>,
    q: Option<&str>,
    q_lower: Option<&str>,
    limit: usize,
    now: u64,
) -> (out: Option<String>)
    ensures
        is_page_if_any(
            store@,
            opt_str_view(format),
            opt_str_view(q),
            opt_str_view(q_lower),
            limit as nat,
            now,
            opt_view(out),
        ),
{
    let rows = filtered(store, format, q_lower, limit, now);
    let ghost s = summary_views(rows@);
    let ghost f = opt_ascii_lower(opt_str_view(format));
    for i in 0..rows.len()
        invariant
            s == summary_views(rows@),
            store@.is_listing(f, opt_str_view(q_lower), limit as nat, store@.cutoff(now), s),
            f == opt_ascii_lower(opt_str_view(format)),
            forall|j: int| 0 <= j < i ==> can_shorten((#[trigger] s[j]).content_key),
    {
        assert(s[i as int].content_key == rows@[i as int].content_key@);
        if !shortens(rows[i].content_key.as_str()) {
            assert(!rows_can_shorten(s));
            return None;
        }
    }
    proof {
        assert(rows_can_shorten(s));
        assert forall|t: Seq<SummaryModel>| #[trigger]
            store@.is_listing(
                f,
                opt_str_view(q_lower),
                limit as nat,
                store@.cutoff(now),
                t,
            ) implies rows_can_shorten(t) by {
            law_listing_is_unique(
                store@,
                f,
                opt_str_view(q_lower),
                limit as nat,
                store@.cutoff(now),
                s,
                t,
            );
        }
    }
    Some(page_at(store, format, q, q_lower, limit, now))
}

/// `out` is a page of the store as of some second, or none where it cannot be
/// rendered then.
pub open spec fn is_current_page_if_any(
    store: StoreModel,
    format: Option<Seq<char>>,
    q: Option<Seq<char>>,
    q_lower: Option<Seq<char>>,
    limit: nat,
    out: Option<Seq<char>>,
) -> bool {
    exists|now: u64| #[trigger] is_page_if_any(store, format, q, q_lower, limit, now, out)
}

/// Renders the full registry page, unless a key that it lists cannot be shortened.
pub fn try_page(store: &PeerStore, format: Option<&str>, q: Option<&str>, limit: usize) -> (out:
    Option<String>)
    ensures
        is_current_page_if_any(
            store@,
            opt_str_view(format),
            opt_str_view(q),
            opt_lowercase(opt_str_view(q)),
            limit as nat,
            opt_view(out),
        ),
{
    // Announces only let in keys that can be shortened, so this is the rule; other
    // stores have their rows looked through first.
    if has_short_keys(store) {
        proof {
            assert forall|now: u64| #[trigger]
                can_render(
                    store@,
                    opt_str_view(format),
                    opt_lowercase(opt_str_view(q)),
                    limit as nat,
                    now,
                ) by {
                lemma_short_keys_render(
                    store@,
                    opt_str_view(format),
                    opt_lowercase(opt_str_view(q)),
                    limit as nat,
                    now,
                );
            }
        }
        let out = page(store, format, q, limit);
        proof {
            let now = choose|now: u64| #[trigger]
                is_page(
                    store@,
                    opt_str_view(format),
                    opt_str_view(q),
                    opt_lowercase(opt_str_view(q)),
                    limit as nat,
                    now,
                    out@,
                );
            assert(is_page_if_any(
                store@,
                opt_str_view(format),
                opt_str_view(q),
                opt_lowercase(opt_str_view(q)),
                limit as nat,
                now,
                Some(out@),
            ));
        }
        return Some(out);
    }
    let now = now_secs();
    let q_lower = match q {
        Some(t) => Some(t.to_lowercase()),
        None => None,
    };
    try_page_at(store, format, q, as_str(&q_lower), limit, now)
}

} // verus!

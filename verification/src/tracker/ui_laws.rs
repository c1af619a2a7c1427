//! What holds of the page, whatever is announced.

use vstd::prelude::*;

use crate::text::{
    ascii_lower, decimal, lemma_before_is_total, lemma_before_is_transitive,
    lemma_not_before_itself, occurs_at, occurs_in, text_before,
};
use crate::tracker::store::{opt_ascii_lower, StoreModel, SummaryModel};
use crate::tracker::store_laws::law_listing_is_unique;
use crate::tracker::ui::{
    age_text, badge_text, body_text, empty_note, entry_text, escaped, escaped_char, facets,
    footer_text, has_own_colour, head_text, human_size_text, is_page, option_text, options_text,
    page_text, place_of, row_text, rows_text, short_key_text, uppercase, with_facet,
};

verus! {

/// A character that HTML gives a meaning in text and in quoted attributes.
pub open spec fn is_markup(c: char) -> bool {
    c == '<' || c == '>' || c == '"' || c == '\''
}

/// An escaped text holds no markup: no tag and no quote of it ends or starts
/// anything on the page.
pub proof fn law_escaped_text_is_inert(s: Seq<char>)
    ensures
        forall|i: int| 0 <= i < escaped(s).len() ==> !is_markup(#[trigger] escaped(s)[i]),
    decreases s.len(),
{
    if s.len() > 0 {
        law_escaped_text_is_inert(s.drop_last());
        let front = escaped(s.drop_last());
        let last = escaped_char(s.last());
        lemma_escaped_char(s.last());
        assert forall|i: int| 0 <= i < escaped(s).len() implies !is_markup(
            #[trigger] escaped(s)[i],
        ) by {
            if i < front.len() {
                assert(escaped(s)[i] == front[i]);
            } else {
                assert(escaped(s)[i] == last[i - front.len()]);
            }
        }
    }
}

/// An escaped character holds no markup, and something.
proof fn lemma_escaped_char(c: char)
    ensures
        escaped_char(c).len() > 0,
        forall|i: int| 0 <= i < escaped_char(c).len() ==> !is_markup(#[trigger] escaped_char(c)[i]),
{
    reveal_strlit("&amp;");
    reveal_strlit("&lt;");
    reveal_strlit("&gt;");
    reveal_strlit("&quot;");
    reveal_strlit("&#39;");
}

/// A text without markup and ampersands stays as it is.
pub proof fn law_plain_text_is_kept(s: Seq<char>)
    requires
        forall|i: int| 0 <= i < s.len() ==> !is_markup(#[trigger] s[i]) && s[i] != '&',
    ensures
        escaped(s) == s,
    decreases s.len(),
{
    if s.len() > 0 {
        let front = s.drop_last();
        assert forall|i: int| 0 <= i < front.len() implies !is_markup(#[trigger] front[i])
            && front[i] != '&' by {
            assert(front[i] == s[i]);
        }
        law_plain_text_is_kept(front);
        assert(!is_markup(s[s.len() - 1]));
        assert(front + seq![s.last()] =~= s);
    }
}

/// The first character is escaped in front of the others.
pub proof fn lemma_escaped_front(s: Seq<char>)
    requires
        s.len() > 0,
    ensures
        escaped(s) == escaped_char(s[0]) + escaped(s.drop_first()),
    decreases s.len(),
{
    let front = s.drop_last();
    if front.len() == 0 {
        assert(s.drop_first() =~= Seq::<char>::empty());
        assert(escaped(front) + escaped_char(s.last()) =~= escaped_char(s[0]) + escaped(
            s.drop_first(),
        ));
    } else {
        lemma_escaped_front(front);
        assert(front.drop_first() =~= s.drop_first().drop_last());
        assert(escaped(s) =~= escaped_char(s[0]) + escaped(s.drop_first()));
    }
}

/// Nothing is lost by escaping: different texts look different.
pub proof fn law_escaping_is_injective(a: Seq<char>, b: Seq<char>)
    requires
        escaped(a) == escaped(b),
    ensures
        a == b,
    decreases a.len(),
{
    if a.len() > 0 {
        lemma_escaped_front(a);
        lemma_escaped_char(a[0]);
    }
    if b.len() > 0 {
        lemma_escaped_front(b);
        lemma_escaped_char(b[0]);
    }
    if a.len() > 0 && b.len() > 0 {
        let x = escaped_char(a[0]);
        let ra = escaped(a.drop_first());
        let rb = escaped(b.drop_first());
        lemma_first_escape(a[0], ra, b[0], rb);
        assert((x + ra).skip(x.len() as int) =~= ra);
        assert((x + rb).skip(x.len() as int) =~= rb);
        law_escaping_is_injective(a.drop_first(), b.drop_first());
        assert(a =~= seq![a[0]] + a.drop_first());
        assert(b =~= seq![b[0]] + b.drop_first());
    } else {
        assert(a =~= b);
    }
}

/// What an escaped text starts with tells its first character.
proof fn lemma_first_escape(c: char, x: Seq<char>, d: char, y: Seq<char>)
    requires
        escaped_char(c) + x == escaped_char(d) + y,
    ensures
        c == d,
{
    reveal_strlit("&amp;");
    reveal_strlit("&lt;");
    reveal_strlit("&gt;");
    reveal_strlit("&quot;");
    reveal_strlit("&#39;");
    let s = escaped_char(c) + x;
    let t = escaped_char(d) + y;
    assert(s[0] == escaped_char(c)[0]);
    assert(t[0] == escaped_char(d)[0]);
    if escaped_char(c).len() > 1 {
        assert(s[1] == escaped_char(c)[1]);
    }
    if escaped_char(d).len() > 1 {
        assert(t[1] == escaped_char(d)[1]);
    }
}

/// How many of the first `n` characters of a text are `c`.
pub open spec fn count_to(s: Seq<char>, c: char, n: nat) -> nat
    decreases n,
{
    if n == 0 {
        0
    } else {
        count_to(s, c, (n - 1) as nat) + if s[n - 1] == c {
            1nat
        } else {
            0nat
        }
    }
}

/// How many characters of a text are `c`.
pub open spec fn count_of(s: Seq<char>, c: char) -> nat {
    count_to(s, c, s.len())
}

/// The text has so many angle brackets that open, that close, and double quotes, and
/// no single one.
pub open spec fn has_markup(s: Seq<char>, open: nat, close: nat, quotes: nat) -> bool {
    &&& count_of(s, '<') == open
    &&& count_of(s, '>') == close
    &&& count_of(s, '"') == quotes
    &&& count_of(s, '\'') == 0
}

/// A row has the same markup whatever a peer announced: seventeen brackets of either
/// kind, ten double quotes, and no single one.
pub proof fn law_row_markup_is_fixed(now: u64, c: SummaryModel)
    ensures
        has_markup(row_text(now, c), 17, 17, 10),
{
    let name = match c.filename {
        Some(f) => f,
        None => "(unnamed)"@,
    };
    let size = match c.size {
        Some(n) => human_size_text(n as nat),
        None => "\u{2014}"@,
    };
    let badge = badge_text(c.format);
    let key = c.content_key;
    let short = short_key_text(key);
    let seeds = decimal(c.providers);
    let when = age_text(now, c.first_seen);
    let t1 = "<tr><td>"@;
    let t2 = "</td><td>"@;
    let t3 = "<br><span class=\"key\" title=\""@;
    let t4 = "\">"@;
    let t5 = "\u{2026}</span></td><td class=\"num\">"@;
    let t6 = "</td><td class=\"num seeds\">"@;
    let t7 = "</td></tr>"@;
    lemma_tags();
    lemma_badge_markup(c.format);
    lemma_escaped_markup(name);
    lemma_escaped_markup(key);
    lemma_escaped_markup(short);
    lemma_escaped_markup(size);
    lemma_decimal_markup(c.providers);
    lemma_age_markup(now, c.first_seen);
    lemma_markup_joined(t1, 2, 2, 0, badge, 2, 2, 2);
    let s1 = t1 + badge;
    lemma_markup_joined(s1, 4, 4, 2, t2, 2, 2, 0);
    let s2 = s1 + t2;
    lemma_markup_joined(s2, 6, 6, 2, escaped(name), 0, 0, 0);
    let s3 = s2 + escaped(name);
    lemma_markup_joined(s3, 6, 6, 2, t3, 2, 1, 3);
    let s4 = s3 + t3;
    lemma_markup_joined(s4, 8, 7, 5, escaped(key), 0, 0, 0);
    let s5 = s4 + escaped(key);
    lemma_markup_joined(s5, 8, 7, 5, t4, 0, 1, 1);
    let s6 = s5 + t4;
    lemma_markup_joined(s6, 8, 8, 6, escaped(short), 0, 0, 0);
    let s7 = s6 + escaped(short);
    lemma_markup_joined(s7, 8, 8, 6, t5, 3, 3, 2);
    let s8 = s7 + t5;
    lemma_markup_joined(s8, 11, 11, 8, escaped(size), 0, 0, 0);
    let s9 = s8 + escaped(size);
    lemma_markup_joined(s9, 11, 11, 8, t6, 2, 2, 2);
    let s10 = s9 + t6;
    lemma_markup_joined(s10, 13, 13, 10, seeds, 0, 0, 0);
    let s11 = s10 + seeds;
    lemma_markup_joined(s11, 13, 13, 10, t2, 2, 2, 0);
    let s12 = s11 + t2;
    lemma_markup_joined(s12, 15, 15, 10, when, 0, 0, 0);
    let s13 = s12 + when;
    lemma_markup_joined(s13, 15, 15, 10, t7, 2, 2, 0);
    assert(row_text(now, c) == s13 + t7);
}

/// An announced filename stands in its row escaped, and the rest of the row is the
/// same whatever it is.
#[verifier::spinoff_prover]
#[verifier::rlimit(40)]
pub proof fn law_filename_is_shown_escaped(
    now: u64,
    c: SummaryModel,
    d: SummaryModel,
    f: Seq<char>,
    g: Seq<char>,
)
    requires
        c.filename == Some(f),
        d == (SummaryModel { filename: Some(g), ..c }),
    ensures
        exists|before: Seq<char>, after: Seq<char>|
            row_text(now, c) == #[trigger] (before + escaped(f) + after) && row_text(now, d)
                == before + escaped(g) + after,
{
    let before = "<tr><td>"@ + badge_text(c.format) + "</td><td>"@;
    let n = (before + escaped(f)).len() as int;
    let after = row_text(now, c).skip(n);
    assert(row_text(now, c) =~= before + escaped(f) + after);
    assert(row_text(now, d) =~= before + escaped(g) + after);
}

/// A text and what follows it are counted each for itself.
proof fn lemma_count_joined(a: Seq<char>, b: Seq<char>, c: char, n: nat)
    requires
        n <= b.len(),
    ensures
        count_to(a + b, c, a.len() + n) == count_of(a, c) + count_to(b, c, n),
    decreases n,
{
    if n == 0 {
        lemma_count_front(a, b, c, a.len());
    } else {
        lemma_count_joined(a, b, c, (n - 1) as nat);
        assert((a + b)[a.len() + n - 1] == b[n - 1]);
    }
}

/// What follows a text does not count for it.
proof fn lemma_count_front(a: Seq<char>, b: Seq<char>, c: char, n: nat)
    requires
        n <= a.len(),
    ensures
        count_to(a + b, c, n) == count_to(a, c, n),
    decreases n,
{
    if n > 0 {
        lemma_count_front(a, b, c, (n - 1) as nat);
    }
}

/// The markup of two texts in a row adds up.
proof fn lemma_markup_joined(
    a: Seq<char>,
    open_a: nat,
    close_a: nat,
    quotes_a: nat,
    b: Seq<char>,
    open_b: nat,
    close_b: nat,
    quotes_b: nat,
)
    requires
        has_markup(a, open_a, close_a, quotes_a),
        has_markup(b, open_b, close_b, quotes_b),
    ensures
        has_markup(a + b, open_a + open_b, close_a + close_b, quotes_a + quotes_b),
{
    lemma_count_joined(a, b, '<', b.len());
    lemma_count_joined(a, b, '>', b.len());
    lemma_count_joined(a, b, '"', b.len());
    lemma_count_joined(a, b, '\'', b.len());
}

/// A character that does not occur counts for nothing.
proof fn lemma_count_none(s: Seq<char>, c: char, n: nat)
    requires
        n <= s.len(),
        forall|i: int| 0 <= i < s.len() ==> #[trigger] s[i] != c,
    ensures
        count_to(s, c, n) == 0,
    decreases n,
{
    if n > 0 {
        lemma_count_none(s, c, (n - 1) as nat);
        assert(s[n - 1] != c);
    }
}

/// A text without markup has none to count.
proof fn lemma_inert_markup(s: Seq<char>)
    requires
        forall|i: int| 0 <= i < s.len() ==> !is_markup(#[trigger] s[i]),
    ensures
        has_markup(s, 0, 0, 0),
{
    lemma_count_none(s, '<', s.len());
    lemma_count_none(s, '>', s.len());
    lemma_count_none(s, '"', s.len());
    lemma_count_none(s, '\'', s.len());
}

/// An escaped text has no markup.
proof fn lemma_escaped_markup(s: Seq<char>)
    ensures
        has_markup(escaped(s), 0, 0, 0),
{
    law_escaped_text_is_inert(s);
    lemma_inert_markup(escaped(s));
}

/// A number has no markup.
proof fn lemma_decimal_markup(n: nat)
    ensures
        has_markup(decimal(n), 0, 0, 0),
{
    lemma_decimal_inert(n);
    lemma_inert_markup(decimal(n));
}

/// The digits of a number are no markup.
proof fn lemma_decimal_inert(n: nat)
    ensures
        forall|i: int| 0 <= i < decimal(n).len() ==> !is_markup(#[trigger] decimal(n)[i]),
    decreases n,
{
    if n >= 10 {
        lemma_decimal_inert(n / 10);
        assert forall|i: int| 0 <= i < decimal(n).len() implies !is_markup(
            #[trigger] decimal(n)[i],
        ) by {
            if i < decimal(n / 10).len() {
                assert(decimal(n)[i] == decimal(n / 10)[i]);
            }
        }
    }
}

/// An age has no markup.
proof fn lemma_age_markup(now: u64, then: u64)
    ensures
        has_markup(age_text(now, then), 0, 0, 0),
{
    lemma_age_words();
    let secs: nat = if now >= then {
        (now - then) as nat
    } else {
        0
    };
    lemma_decimal_markup(secs / 60);
    lemma_decimal_markup(secs / 3600);
    lemma_decimal_markup(secs / 86_400);
    lemma_markup_joined(decimal(secs / 60), 0, 0, 0, " min ago"@, 0, 0, 0);
    lemma_markup_joined(decimal(secs / 3600), 0, 0, 0, " h ago"@, 0, 0, 0);
    lemma_markup_joined(decimal(secs / 86_400), 0, 0, 0, " d ago"@, 0, 0, 0);
}

/// The words of an age have no markup.
proof fn lemma_age_words()
    ensures
        has_markup("just now"@, 0, 0, 0),
        has_markup(" min ago"@, 0, 0, 0),
        has_markup(" h ago"@, 0, 0, 0),
        has_markup(" d ago"@, 0, 0, 0),
{
    reveal_with_fuel(count_to, 9);
    reveal_strlit("just now");
    reveal_strlit(" min ago");
    reveal_strlit(" h ago");
    reveal_strlit(" d ago");
}

/// A badge is one element with one attribute.
proof fn lemma_badge_markup(format: Option<Seq<char>>)
    ensures
        has_markup(badge_text(format), 2, 2, 2),
{
    lemma_badge_tags();
    if let Some(f) = format {
        let class = if has_own_colour(f) {
            "badge badge-"@ + f
        } else {
            "badge"@
        };
        if has_own_colour(f) {
            lemma_markup_joined("badge badge-"@, 0, 0, 0, f, 0, 0, 0);
        }
        let upper = escaped(uppercase(f));
        lemma_escaped_markup(uppercase(f));
        let s1 = "<span class=\""@ + class;
        lemma_markup_joined("<span class=\""@, 1, 0, 1, class, 0, 0, 0);
        lemma_markup_joined(s1, 1, 0, 1, "\">"@, 0, 1, 1);
        let s2 = s1 + "\">"@;
        lemma_markup_joined(s2, 1, 1, 2, upper, 0, 0, 0);
        let s3 = s2 + upper;
        lemma_markup_joined(s3, 1, 1, 2, "</span>"@, 1, 1, 0);
    }
}

/// The markup of the fixed parts of a badge.
proof fn lemma_badge_tags()
    ensures
        has_markup("<span class=\"badge\">?</span>"@, 2, 2, 2),
        has_markup("<span class=\""@, 1, 0, 1),
        has_markup("\">"@, 0, 1, 1),
        has_markup("</span>"@, 1, 1, 0),
        has_markup("badge"@, 0, 0, 0),
        has_markup("badge badge-"@, 0, 0, 0),
        has_markup("gguf"@, 0, 0, 0),
        has_markup("safetensors"@, 0, 0, 0),
        has_markup("bin"@, 0, 0, 0),
        has_markup("pt"@, 0, 0, 0),
        has_markup("onnx"@, 0, 0, 0),
{
    reveal_with_fuel(count_to, 32);
    reveal_strlit("<span class=\"badge\">?</span>");
    reveal_strlit("<span class=\"");
    reveal_strlit("\">");
    reveal_strlit("</span>");
    reveal_strlit("badge");
    reveal_strlit("badge badge-");
    reveal_strlit("gguf");
    reveal_strlit("safetensors");
    reveal_strlit("bin");
    reveal_strlit("pt");
    reveal_strlit("onnx");
}

/// The markup of the fixed parts of a row.
proof fn lemma_tags()
    ensures
        has_markup("<tr><td>"@, 2, 2, 0),
        has_markup("</td><td>"@, 2, 2, 0),
        has_markup("<br><span class=\"key\" title=\""@, 2, 1, 3),
        has_markup("\">"@, 0, 1, 1),
        has_markup("\u{2026}</span></td><td class=\"num\">"@, 3, 3, 2),
        has_markup("</td><td class=\"num seeds\">"@, 2, 2, 2),
        has_markup("</td></tr>"@, 2, 2, 0),
{
    reveal_with_fuel(count_to, 36);
    reveal_strlit("<tr><td>");
    reveal_strlit("</td><td>");
    reveal_strlit("<br><span class=\"key\" title=\"");
    reveal_strlit("\">");
    reveal_strlit("\u{2026}</span></td><td class=\"num\">");
    reveal_strlit("</td><td class=\"num seeds\">");
    reveal_strlit("</td></tr>");
}

/// Every row that is to be shown stands on the page.
pub proof fn law_every_row_is_shown(
    now: u64,
    all: Seq<SummaryModel>,
    rows: Seq<SummaryModel>,
    format: Option<Seq<char>>,
    q: Option<Seq<char>>,
    i: int,
)
    requires
        0 <= i < rows.len(),
    ensures
        occurs_in(page_text(now, all, rows, format, q), row_text(now, rows[i])),
{
    let row = row_text(now, rows[i]);
    lemma_row_in_rows(now, rows, i);
    let page = page_text(now, all, rows, format, q);
    let body = body_text(now, rows);
    let (before, after) = lemma_body_in_page(now, all, rows, format, q);
    let (head, tail) = lemma_rows_in_body(now, rows);
    lemma_occurs_within(head, rows_text(now, rows), tail, row);
    lemma_occurs_within(before, body, after, row);
}

/// What occurs in a part of a text occurs in the text.
proof fn lemma_occurs_within(before: Seq<char>, s: Seq<char>, after: Seq<char>, needle: Seq<char>)
    requires
        occurs_in(s, needle),
    ensures
        occurs_in(before + s + after, needle),
{
    let at = choose|at: int| occurs_at(s, needle, at);
    let whole = before + s + after;
    let n = needle.len() as int;
    let k = before.len() + at;
    assert(whole.subrange(k, k + n) =~= s.subrange(at, at + n));
    assert(occurs_at(whole, needle, k));
}

/// A row occurs among the rows.
proof fn lemma_row_in_rows(now: u64, rows: Seq<SummaryModel>, i: int)
    requires
        0 <= i < rows.len(),
    ensures
        occurs_in(rows_text(now, rows), row_text(now, rows[i])),
    decreases rows.len(),
{
    let front = rows_text(now, rows.drop_last());
    let last = row_text(now, rows.last());
    let row = row_text(now, rows[i]);
    assert(rows_text(now, rows) =~= front + last + Seq::<char>::empty());
    assert(rows_text(now, rows) =~= Seq::<char>::empty() + front + last);
    if i == rows.len() - 1 {
        assert(row.subrange(0, row.len() as int) =~= row);
        assert(occurs_at(last, row, 0));
        lemma_occurs_within(front, last, Seq::empty(), row);
    } else {
        lemma_row_in_rows(now, rows.drop_last(), i);
        lemma_occurs_within(Seq::empty(), front, last, row);
    }
}

/// The table stands around its rows.
pub proof fn lemma_rows_in_body(now: u64, rows: Seq<SummaryModel>) -> (around: (Seq<char>, Seq<char>))
    requires
        rows.len() > 0,
    ensures
        body_text(now, rows) == around.0 + rows_text(now, rows) + around.1,
        around.0
            == "<table><thead><tr><th>Type</th><th>Name (order by: seeds \u{2193})</th><th>Size</th><th>Seeds</th><th>First seen</th></tr></thead><tbody>"@,
        around.1 == "</tbody></table>"@,
{
    (
        "<table><thead><tr><th>Type</th><th>Name (order by: seeds \u{2193})</th><th>Size</th><th>Seeds</th><th>First seen</th></tr></thead><tbody>"@,
        "</tbody></table>"@,
    )
}

/// The page stands around its table.
pub proof fn lemma_body_in_page(
    now: u64,
    all: Seq<SummaryModel>,
    rows: Seq<SummaryModel>,
    format: Option<Seq<char>>,
    q: Option<Seq<char>>,
) -> (around: (Seq<char>, Seq<char>))
    ensures
        page_text(now, all, rows, format, q) == around.0 + body_text(now, rows) + around.1,
{
    let page = page_text(now, all, rows, format, q);
    let body = body_text(now, rows);
    let tail = footer_text(rows.len());
    let n = page.len() - tail.len() - body.len();
    assert(page =~= page.take(n) + body + tail);
    (page.take(n), tail)
}

/// The page ends with the number of its rows, and stands around its table, which is
/// the note that there is nothing to show exactly where that number is nought.
pub proof fn law_footer_counts_the_rows(
    now: u64,
    all: Seq<SummaryModel>,
    rows: Seq<SummaryModel>,
    format: Option<Seq<char>>,
    q: Option<Seq<char>>,
)
    ensures
        exists|head: Seq<char>|
            page_text(now, all, rows, format, q) == #[trigger] (head + body_text(now, rows)
                + footer_text(rows.len())),
        body_text(now, rows) == empty_note() <==> rows.len() == 0,
{
    let head = head_text(
        match q {
            Some(t) => t,
            None => ""@,
        },
        options_text(facets(all), opt_ascii_lower(format)),
    );
    assert(page_text(now, all, rows, format, q) == head + body_text(now, rows) + footer_text(
        rows.len(),
    ));
    if rows.len() > 0 {
        let (top, bottom) = lemma_rows_in_body(now, rows);
        reveal_strlit(
            "<table><thead><tr><th>Type</th><th>Name (order by: seeds \u{2193})</th><th>Size</th><th>Seeds</th><th>First seen</th></tr></thead><tbody>",
        );
        reveal_strlit(
            "<p class=\"empty\">Nothing is seeded (or matches the filter) right now. Pull a file with dfget and it will appear here.</p>",
        );
        assert(body_text(now, rows)[1] == 't');
        assert(empty_note()[1] == 'p');
    }
}

/// The texts stand in order, each before all that follow.
pub open spec fn increasing(s: Seq<Seq<char>>) -> bool {
    forall|i: int, j: int| 0 <= i < j < s.len() ==> text_before(#[trigger] s[i], #[trigger] s[j])
}

/// The dropdown holds the formats of the listed contents, in lower case, in order,
/// each once, and nothing else.
pub proof fn law_dropdown_holds_the_formats(all: Seq<SummaryModel>)
    ensures
        increasing(facets(all)),
        facets(all).no_duplicates(),
        forall|f: Seq<char>| #[trigger]
            facets(all).contains(f) <==> exists|i: int|
                0 <= i < all.len() && has_format(#[trigger] all[i], f),
{
    lemma_facets(all);
    let s = facets(all);
    assert forall|i: int, j: int| 0 <= i < s.len() && 0 <= j < s.len() && i != j implies s[i]
        != s[j] by {
        if i < j {
            assert(text_before(s[i], s[j]));
        } else {
            assert(text_before(s[j], s[i]));
        }
        lemma_not_before_itself(s[i]);
    }
}

/// The entry at position `i` of the dropdown is the chosen one.
pub open spec fn is_selected(all: Seq<SummaryModel>, format: Option<Seq<char>>, i: int) -> bool {
    opt_ascii_lower(format) == Some(facets(all)[i])
}

/// The dropdown shows which format was chosen: the entry of its lower case is marked
/// as selected, and no other is. Where no listed content has the format, or none was
/// chosen, no entry is marked.
pub proof fn law_only_the_format_is_selected(
    all: Seq<SummaryModel>,
    format: Option<Seq<char>>,
    i: int,
    j: int,
)
    requires
        0 <= i < facets(all).len(),
        0 <= j < facets(all).len(),
    ensures
        ({
            let f = facets(all)[i];
            let upper = uppercase(f);
            let entry = option_text(f, upper, is_selected(all, format, i));
            &&& occurs_in(options_text(facets(all), opt_ascii_lower(format)), entry)
            &&& option_text(f, upper, true) != option_text(f, upper, false)
        }),
        is_selected(all, format, i) && is_selected(all, format, j) ==> i == j,
        (exists|k: int| 0 <= k < facets(all).len() && #[trigger] is_selected(all, format, k)) <==> (
        exists|k: int|
            0 <= k < all.len() && format is Some && has_format(
                #[trigger] all[k],
                ascii_lower(format->0),
            )),
{
    let formats = facets(all);
    let f = formats[i];
    let upper = uppercase(f);
    law_dropdown_holds_the_formats(all);
    lemma_entry_in_options(formats, opt_ascii_lower(format), i);
    assert(option_text(f, upper, true).len() != option_text(f, upper, false).len()) by {
        reveal_strlit(" selected");
        reveal_strlit("");
    }
    if format is Some {
        let wanted = ascii_lower(format->0);
        if formats.contains(wanted) {
            let k = choose|k: int| 0 <= k < formats.len() && formats[k] == wanted;
            assert(is_selected(all, format, k));
        }
        if exists|k: int| 0 <= k < formats.len() && #[trigger] is_selected(all, format, k) {
            let k = choose|k: int| 0 <= k < formats.len() && #[trigger] is_selected(all, format, k);
            assert(formats[k] == wanted);
            assert(formats.contains(wanted));
        }
    }
}

/// The entry of a format occurs among the entries.
proof fn lemma_entry_in_options(formats: Seq<Seq<char>>, chosen: Option<Seq<char>>, i: int)
    requires
        0 <= i < formats.len(),
    ensures
        occurs_in(options_text(formats, chosen), entry_text(formats[i], chosen)),
    decreases formats.len(),
{
    let front = options_text(formats.drop_last(), chosen);
    let last = entry_text(formats.last(), chosen);
    let entry = entry_text(formats[i], chosen);
    assert(options_text(formats, chosen) =~= front + last + Seq::<char>::empty());
    assert(options_text(formats, chosen) =~= Seq::<char>::empty() + front + last);
    if i == formats.len() - 1 {
        assert(entry.subrange(0, entry.len() as int) =~= entry);
        assert(occurs_at(last, entry, 0));
        lemma_occurs_within(front, last, Seq::empty(), entry);
    } else {
        lemma_entry_in_options(formats.drop_last(), chosen, i);
        lemma_occurs_within(Seq::empty(), front, last, entry);
    }
}

/// The dropdown is the same whatever is filtered by: two pages of one store at one
/// instant, of one length, draw their entries from the same listing, so a filter
/// never hides the other categories.
pub proof fn law_filter_keeps_the_dropdown(
    store: StoreModel,
    format1: Option<Seq<char>>,
    q1: Option<Seq<char>>,
    lower1: Option<Seq<char>>,
    page1: Seq<char>,
    format2: Option<Seq<char>>,
    q2: Option<Seq<char>>,
    lower2: Option<Seq<char>>,
    page2: Seq<char>,
    limit: nat,
    now: u64,
)
    requires
        is_page(store, format1, q1, lower1, limit, now, page1),
        is_page(store, format2, q2, lower2, limit, now, page2),
    ensures
        exists|all: Seq<SummaryModel>, rows1: Seq<SummaryModel>, rows2: Seq<SummaryModel>|
            store.is_listing(None, None, limit, store.cutoff(now), all) && store.is_listing(
                opt_ascii_lower(format1),
                lower1,
                limit,
                store.cutoff(now),
                rows1,
            ) && store.is_listing(
                opt_ascii_lower(format2),
                lower2,
                limit,
                store.cutoff(now),
                rows2,
            ) && page1 == #[trigger] page_text(now, all, rows1, format1, q1) && page2
                == #[trigger] page_text(now, all, rows2, format2, q2),
{
    let cutoff = store.cutoff(now);
    let (all1, rows1) = choose|all: Seq<SummaryModel>, rows: Seq<SummaryModel>|
        store.is_listing(None, None, limit, cutoff, all) && store.is_listing(
            opt_ascii_lower(format1),
            lower1,
            limit,
            cutoff,
            rows,
        ) && page1 == #[trigger] page_text(now, all, rows, format1, q1);
    let (all2, rows2) = choose|all: Seq<SummaryModel>, rows: Seq<SummaryModel>|
        store.is_listing(None, None, limit, cutoff, all) && store.is_listing(
            opt_ascii_lower(format2),
            lower2,
            limit,
            cutoff,
            rows,
        ) && page2 == #[trigger] page_text(now, all, rows, format2, q2);
    law_listing_is_unique(store, None, None, limit, cutoff, all1, all2);
}

/// The content has this format, in lower case.
pub open spec fn has_format(c: SummaryModel, f: Seq<char>) -> bool {
    c.format matches Some(g) && ascii_lower(g) == f
}

/// All texts in front of the place stand before `x`, and the one at the place does
/// not.
proof fn lemma_place(s: Seq<Seq<char>>, x: Seq<char>)
    ensures
        0 <= place_of(s, x) <= s.len(),
        forall|i: int| 0 <= i < place_of(s, x) ==> text_before(#[trigger] s[i], x),
        place_of(s, x) < s.len() ==> !text_before(s[place_of(s, x)], x),
    decreases s.len(),
{
    if s.len() > 0 && text_before(s[0], x) {
        let rest = s.drop_first();
        lemma_place(rest, x);
        assert forall|i: int| 0 <= i < place_of(s, x) implies text_before(#[trigger] s[i], x) by {
            if i > 0 {
                assert(rest[i - 1] == s[i]);
            }
        }
    }
}

/// One more text keeps the order and is there.
proof fn lemma_with_facet(s: Seq<Seq<char>>, x: Seq<char>)
    requires
        increasing(s),
    ensures
        increasing(with_facet(s, x)),
        forall|f: Seq<char>| #[trigger] with_facet(s, x).contains(f) <==> s.contains(f) || f == x,
{
    lemma_place(s, x);
    let at = place_of(s, x);
    let t = with_facet(s, x);
    if at < s.len() && s[at] == x {
        assert(s.contains(x));
    } else {
        assert(t[at] == x);
        assert forall|j: int| at <= j < s.len() implies text_before(x, #[trigger] s[j]) by {
            lemma_before_is_total(s[at], x);
            if j > at {
                lemma_before_is_transitive(x, s[at], s[j]);
            }
        }
        assert forall|i: int, j: int| 0 <= i < j < t.len() implies text_before(
            #[trigger] t[i],
            #[trigger] t[j],
        ) by {
            if j < at {
                assert(t[i] == s[i] && t[j] == s[j]);
            } else if j == at {
                assert(t[i] == s[i]);
            } else if i < at {
                assert(t[i] == s[i] && t[j] == s[j - 1]);
            } else if i == at {
                assert(t[j] == s[j - 1]);
            } else {
                assert(t[i] == s[i - 1] && t[j] == s[j - 1]);
            }
        }
        assert forall|f: Seq<char>| #[trigger] t.contains(f) <==> s.contains(f) || f == x by {
            if t.contains(f) {
                let i = choose|i: int| 0 <= i < t.len() && t[i] == f;
                if i < at {
                    assert(s[i] == f);
                } else if i > at {
                    assert(s[i - 1] == f);
                }
            }
            if s.contains(f) {
                let i = choose|i: int| 0 <= i < s.len() && s[i] == f;
                if i < at {
                    assert(t[i] == f);
                } else {
                    assert(t[i + 1] == f);
                }
            }
        }
    }
}

/// The formats so far are in order, and are those of the contents so far.
proof fn lemma_facets(all: Seq<SummaryModel>)
    ensures
        increasing(facets(all)),
        forall|f: Seq<char>| #[trigger]
            facets(all).contains(f) <==> exists|i: int|
                0 <= i < all.len() && has_format(#[trigger] all[i], f),
    decreases all.len(),
{
    if all.len() > 0 {
        let front = all.drop_last();
        let last = all.last();
        lemma_facets(front);
        if last.format is Some {
            lemma_with_facet(facets(front), ascii_lower(last.format->0));
        }
        assert forall|f: Seq<char>| #[trigger] facets(all).contains(f) <==> exists|i: int|
            0 <= i < all.len() && has_format(#[trigger] all[i], f) by {
            if facets(all).contains(f) {
                if facets(front).contains(f) {
                    let i = choose|i: int| 0 <= i < front.len() && has_format(#[trigger] front[i], f);
                    assert(has_format(all[i], f));
                } else {
                    assert(has_format(all[all.len() - 1], f));
                }
            }
            if exists|i: int| 0 <= i < all.len() && has_format(#[trigger] all[i], f) {
                let i = choose|i: int| 0 <= i < all.len() && has_format(#[trigger] all[i], f);
                if i < front.len() {
                    assert(has_format(front[i], f));
                    assert(facets(front).contains(f));
                }
            }
        }
    }
}

} // verus!

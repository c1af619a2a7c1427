//! What the page shows and in which order, said of its text.

use vstd::prelude::*;
use vstd::utf8::encode_utf8;

use crate::text::{ascii_lower, decimal};
use crate::tracker::store::{opt_ascii_lower, StoreModel, SummaryModel};
use crate::tracker::ui::{
    age_text, badge_text, body_text, can_shorten, entry_text, escaped, escaped_char, facets,
    has_own_colour, human_size_text, is_page, options_text, page_text, row_text, rows_text,
    short_key_text, uppercase, STYLE,
};
use crate::tracker::ui_laws::{lemma_body_in_page, lemma_escaped_front, lemma_rows_in_body};

verus! {

/// The rows stand in the order of the listing: those of two listings, one behind the
/// other, are the rows of the first and then those of the second, and one row stands
/// as it is.
pub proof fn law_rows_stand_in_order(
    now: u64,
    a: Seq<SummaryModel>,
    b: Seq<SummaryModel>,
    c: SummaryModel,
)
    ensures
        rows_text(now, a + b) == rows_text(now, a) + rows_text(now, b),
        rows_text(now, seq![c]) == row_text(now, c),
        rows_text(now, Seq::empty()) == Seq::<char>::empty(),
    decreases b.len(),
{
    assert(seq![c].drop_last() =~= Seq::<SummaryModel>::empty());
    assert(seq![c].last() == c);
    assert(rows_text(now, Seq::<SummaryModel>::empty()) == Seq::<char>::empty());
    lemma_joined(Seq::empty(), Seq::empty(), row_text(now, c));
    if b.len() == 0 {
        assert(a + b =~= a);
        lemma_joined(rows_text(now, a), Seq::empty(), Seq::empty());
    } else {
        let front = b.drop_last();
        assert((a + b).drop_last() =~= a + front);
        assert((a + b).last() == b.last());
        law_rows_stand_in_order(now, a, front, c);
        lemma_joined(rows_text(now, a), rows_text(now, front), row_text(now, b.last()));
    }
}

/// On the page a row ends before the row of every later content begins, with the rows
/// of the contents between them in between.
pub proof fn law_page_lists_in_order(
    now: u64,
    all: Seq<SummaryModel>,
    rows: Seq<SummaryModel>,
    format: Option<Seq<char>>,
    q: Option<Seq<char>>,
    i: int,
    j: int,
)
    requires
        0 <= i < j < rows.len(),
    ensures
        exists|before: Seq<char>, between: Seq<char>, after: Seq<char>|
            page_text(now, all, rows, format, q) == #[trigger] (before + row_text(now, rows[i])
                + between + row_text(now, rows[j]) + after) && between == rows_text(
                now,
                rows.subrange(i + 1, j),
            ),
{
    let (a, b, c) = (rows.take(i), rows.subrange(i + 1, j), rows.skip(j + 1));
    let (x, y) = (rows[i], rows[j]);
    assert(rows =~= a + (seq![x] + (b + (seq![y] + c))));
    law_rows_stand_in_order(now, a, seq![x] + (b + (seq![y] + c)), x);
    law_rows_stand_in_order(now, seq![x], b + (seq![y] + c), x);
    law_rows_stand_in_order(now, b, seq![y] + c, y);
    law_rows_stand_in_order(now, seq![y], c, y);
    let (above, below) = lemma_body_in_page(now, all, rows, format, q);
    let (top, bottom) = lemma_rows_in_body(now, rows);
    let before = above + top + rows_text(now, a);
    let after = rows_text(now, c) + bottom + below;
    let between = rows_text(now, b);
    lemma_two_rows(
        above,
        top,
        rows_text(now, a),
        row_text(now, x),
        between,
        row_text(now, y),
        rows_text(now, c),
        bottom,
        below,
    );
    assert(page_text(now, all, rows, format, q) == before + row_text(now, x) + between + row_text(
        now,
        y,
    ) + after);
}

/// Texts in a row are the same text however they are taken together.
proof fn lemma_joined(a: Seq<char>, b: Seq<char>, c: Seq<char>)
    ensures
        a + b + c == a + (b + c),
        Seq::<char>::empty() + c == c,
        a + Seq::<char>::empty() == a,
{
    assert(a + b + c =~= a + (b + c));
    assert(Seq::<char>::empty() + c =~= c);
    assert(a + Seq::<char>::empty() =~= a);
}

/// Two rows among what stands around them.
proof fn lemma_two_rows(
    above: Seq<char>,
    top: Seq<char>,
    a: Seq<char>,
    x: Seq<char>,
    b: Seq<char>,
    y: Seq<char>,
    c: Seq<char>,
    bottom: Seq<char>,
    below: Seq<char>,
)
    ensures
        above + (top + (a + (x + (b + (y + c)))) + bottom) + below == (above + top + a) + x + b + y
            + (c + bottom + below),
{
    assert(above + (top + (a + (x + (b + (y + c)))) + bottom) + below =~= (above + top + a) + x + b
        + y + (c + bottom + below));
}

/// The table of the page holds the rows and nothing but them between its head and
/// its end, whatever they are.
pub proof fn law_table_is_its_rows(now: u64, a: Seq<SummaryModel>, b: Seq<SummaryModel>)
    requires
        a.len() > 0,
        b.len() > 0,
    ensures
        exists|top: Seq<char>, bottom: Seq<char>|
            body_text(now, a) == #[trigger] (top + rows_text(now, a) + bottom) && body_text(now, b)
                == top + rows_text(now, b) + bottom,
{
    let (top, bottom) = lemma_rows_in_body(now, a);
    let (top_b, bottom_b) = lemma_rows_in_body(now, b);
    assert(top == top_b && bottom == bottom_b);
}

/// The cells of a row: the badge of the format, the filename and the whole and the
/// short key, the size, the number of seeds, and the age of the first announce. In
/// any two rows they stand between the same texts, in this order.
pub proof fn law_row_cells(now1: u64, c1: SummaryModel, now2: u64, c2: SummaryModel)
    ensures
        exists|t: Seq<Seq<char>>|
            t.len() == 8 && row_text(now1, c1) == #[trigger] filled_row(t, cells_of(now1, c1))
                && row_text(now2, c2) == filled_row(t, cells_of(now2, c2)),
{
    let t = seq![
        "<tr><td>"@,
        "</td><td>"@,
        "<br><span class=\"key\" title=\""@,
        "\">"@,
        "\u{2026}</span></td><td class=\"num\">"@,
        "</td><td class=\"num seeds\">"@,
        "</td><td>"@,
        "</td></tr>"@,
    ];
    assert(row_text(now1, c1) =~= filled_row(t, cells_of(now1, c1)));
    assert(row_text(now2, c2) =~= filled_row(t, cells_of(now2, c2)));
    assert(t.len() == 8);
}

/// What a row shows of a content, cell by cell.
pub open spec fn cells_of(now: u64, c: SummaryModel) -> Seq<Seq<char>> {
    seq![
        badge_text(c.format),
        escaped(
            if c.filename is Some {
                c.filename->0
            } else {
                "(unnamed)"@
            },
        ),
        escaped(c.content_key),
        escaped(short_key_text(c.content_key)),
        escaped(
            if c.size is Some {
                human_size_text(c.size->0 as nat)
            } else {
                "\u{2014}"@
            },
        ),
        decimal(c.providers),
        age_text(now, c.first_seen),
    ]
}

/// Seven cells between eight texts.
pub open spec fn filled_row(t: Seq<Seq<char>>, cells: Seq<Seq<char>>) -> Seq<char> {
    t[0] + cells[0] + t[1] + cells[1] + t[2] + cells[2] + t[3] + cells[3] + t[4] + cells[4] + t[5]
        + cells[5] + t[6] + cells[6] + t[7]
}

/// The page around what it shows: the search text, escaped, in the search box, the
/// entries of the dropdown, the table, and the number of rows. Any two pages have the
/// same texts between these.
pub proof fn law_page_parts(
    now1: u64,
    all1: Seq<SummaryModel>,
    rows1: Seq<SummaryModel>,
    format1: Option<Seq<char>>,
    q1: Option<Seq<char>>,
    now2: u64,
    all2: Seq<SummaryModel>,
    rows2: Seq<SummaryModel>,
    format2: Option<Seq<char>>,
    q2: Option<Seq<char>>,
)
    ensures
        exists|t: Seq<Seq<char>>|
            t.len() == 5 && page_text(now1, all1, rows1, format1, q1) == #[trigger] filled_page(
                t,
                now1,
                all1,
                rows1,
                format1,
                q1,
            ) && page_text(now2, all2, rows2, format2, q2) == filled_page(
                t,
                now2,
                all2,
                rows2,
                format2,
                q2,
            ),
{
    reveal_strlit("");
    let t = seq![
        "<!doctype html>\n<html lang=\"en\"><head><meta charset=\"utf-8\">\n<meta name=\"viewport\" content=\"width=device-width, initial-scale=1\">\n<title>Dragonfly GGUF tracker registry</title>\n<style>"@
            + STYLE@
            + "</style></head>\n<body>\n<h1>&#128009; Dragonfly P2P registry</h1>\n<form method=\"get\" action=\"/\">\n  <input type=\"search\" name=\"q\" placeholder=\"search filename&#8230;\" value=\""@,
        "\">\n  <select name=\"format\">\n    <option value=\"\">all types</option>\n    "@,
        "\n  </select>\n  <button type=\"submit\">Filter</button>\n</form>\n"@,
        "\n<footer>"@,
        " listed &middot; live view of what the swarm is seeding &middot;\nAPI: <code>GET /contents?format=&amp;q=&amp;limit=</code></footer>\n</body></html>"@,
    ];
    assert(""@ =~= Seq::<char>::empty());
    assert(page_text(now1, all1, rows1, format1, q1) =~= filled_page(
        t,
        now1,
        all1,
        rows1,
        format1,
        q1,
    ));
    assert(page_text(now2, all2, rows2, format2, q2) =~= filled_page(
        t,
        now2,
        all2,
        rows2,
        format2,
        q2,
    ));
    assert(t.len() == 5);
}

/// What a page shows, between five texts.
pub open spec fn filled_page(
    t: Seq<Seq<char>>,
    now: u64,
    all: Seq<SummaryModel>,
    rows: Seq<SummaryModel>,
    format: Option<Seq<char>>,
    q: Option<Seq<char>>,
) -> Seq<char> {
    t[0] + escaped(
        if q is Some {
            q->0
        } else {
            Seq::empty()
        },
    ) + t[1] + options_text(facets(all), opt_ascii_lower(format)) + t[2] + body_text(now, rows) + t[3]
        + decimal(rows.len()) + t[4]
}

/// A page of a store shows the listing that was asked for: its rows are those of the
/// listing by the format, in lower case, and the search text, up to the limit, as of
/// its second; it counts them; and its dropdown is that of the unfiltered listing.
pub proof fn law_page_shows_the_listing(
    store: StoreModel,
    format: Option<Seq<char>>,
    q: Option<Seq<char>>,
    q_lower: Option<Seq<char>>,
    limit: nat,
    now: u64,
    page: Seq<char>,
)
    requires
        is_page(store, format, q, q_lower, limit, now, page),
    ensures
        exists|all: Seq<SummaryModel>, rows: Seq<SummaryModel>|
            store.is_listing(None, None, limit, store.cutoff(now), all) && store.is_listing(
                if format is Some {
                    Some(ascii_lower(format->0))
                } else {
                    None
                },
                q_lower,
                limit,
                store.cutoff(now),
                rows,
            ) && page == #[trigger] page_text(now, all, rows, format, q),
{
}

/// An entry of the dropdown names its format as its value and shows it in upper case,
/// both escaped, and is marked exactly if its format was chosen.
pub proof fn law_entry_parts(f: Seq<char>, chosen: Option<Seq<char>>)
    ensures
        chosen == Some(f) ==> entry_text(f, chosen) == "<option value=\""@ + escaped(f)
            + "\" selected>"@ + escaped(uppercase(f)) + "</option>"@,
        chosen != Some(f) ==> entry_text(f, chosen) == "<option value=\""@ + escaped(f) + "\">"@
            + escaped(uppercase(f)) + "</option>"@,
{
    reveal_strlit("");
    reveal_strlit("\"");
    reveal_strlit(">");
    reveal_strlit(" selected");
    reveal_strlit("\" selected>");
    reveal_strlit("\">");
    assert("\" selected>"@ =~= "\""@ + " selected"@ + ">"@);
    assert("\">"@ =~= "\""@ + ""@ + ">"@);
    assert(chosen == Some(f) ==> entry_text(f, chosen) =~= "<option value=\""@ + escaped(f)
        + "\" selected>"@ + escaped(uppercase(f)) + "</option>"@);
    assert(chosen != Some(f) ==> entry_text(f, chosen) =~= "<option value=\""@ + escaped(f)
        + "\">"@ + escaped(uppercase(f)) + "</option>"@);
}

/// The entries of the dropdown stand in the order of the formats.
pub proof fn law_entries_stand_in_order(
    a: Seq<Seq<char>>,
    b: Seq<Seq<char>>,
    f: Seq<char>,
    chosen: Option<Seq<char>>,
)
    ensures
        options_text(a + b, chosen) == options_text(a, chosen) + options_text(b, chosen),
        options_text(seq![f], chosen) == entry_text(f, chosen),
    decreases b.len(),
{
    reveal_with_fuel(options_text, 2);
    assert(seq![f].drop_last() =~= Seq::<Seq<char>>::empty());
    assert(options_text(seq![f], chosen) =~= entry_text(f, chosen));
    if b.len() == 0 {
        assert(a + b =~= a);
        assert(options_text(a, chosen) + options_text(b, chosen) =~= options_text(a, chosen));
    } else {
        assert((a + b).drop_last() =~= a + b.drop_last());
        assert((a + b).last() == b.last());
        law_entries_stand_in_order(a, b.drop_last(), f, chosen);
        assert(options_text(a + b, chosen) =~= options_text(a, chosen) + options_text(b, chosen));
    }
}

/// Text is escaped character by character: the five signs that HTML gives a meaning
/// are written as their entities, and every other character stays.
pub proof fn law_escaping_is_by_character(a: Seq<char>, b: Seq<char>, c: char)
    ensures
        escaped(a + b) == escaped(a) + escaped(b),
        escaped(Seq::empty()) == Seq::<char>::empty(),
        escaped(seq!['&']) == "&amp;"@,
        escaped(seq!['<']) == "&lt;"@,
        escaped(seq!['>']) == "&gt;"@,
        escaped(seq!['"']) == "&quot;"@,
        escaped(seq!['\'']) == "&#39;"@,
        c != '&' && c != '<' && c != '>' && c != '"' && c != '\'' ==> escaped(seq![c]) == seq![c],
    decreases b.len(),
{
    lemma_escaped_one('&');
    lemma_escaped_one('<');
    lemma_escaped_one('>');
    lemma_escaped_one('"');
    lemma_escaped_one('\'');
    lemma_escaped_one(c);
    if b.len() == 0 {
        assert(a + b =~= a);
        assert(escaped(a) + escaped(b) =~= escaped(a));
    } else {
        assert((a + b).drop_last() =~= a + b.drop_last());
        assert((a + b).last() == b.last());
        law_escaping_is_by_character(a, b.drop_last(), c);
        assert(escaped(a + b) =~= escaped(a) + escaped(b));
    }
}

/// One character, escaped.
proof fn lemma_escaped_one(c: char)
    ensures
        escaped(seq![c]) == escaped_char(c),
{
    lemma_escaped_front(seq![c]);
    assert(seq![c].drop_first() =~= Seq::<char>::empty());
    assert(escaped_char(c) + escaped(Seq::empty()) =~= escaped_char(c));
}

/// The badge of a format shows it in upper case, escaped; the five known formats, in
/// lower case, have a class of their own, and no other format has.
pub proof fn law_badges(f: Seq<char>)
    ensures
        badge_text(Some(f)) == "<span class=\"badge"@ + (if f == "gguf"@ || f == "safetensors"@ || f
            == "bin"@ || f == "pt"@ || f == "onnx"@ {
            " badge-"@ + f
        } else {
            Seq::empty()
        }) + "\">"@ + escaped(uppercase(f)) + "</span>"@,
        badge_text(None) == "<span class=\"badge\">?</span>"@,
{
    reveal_strlit("<span class=\"badge");
    reveal_strlit("<span class=\"");
    reveal_strlit("badge");
    reveal_strlit(" badge-");
    reveal_strlit("badge badge-");
    assert("<span class=\""@ + "badge"@ =~= "<span class=\"badge"@);
    assert("badge"@ + " badge-"@ =~= "badge badge-"@);
    assert(badge_text(Some(f)) =~= "<span class=\"badge"@ + (if has_own_colour(f) {
        " badge-"@ + f
    } else {
        Seq::empty()
    }) + "\">"@ + escaped(uppercase(f)) + "</span>"@);
}

/// An age is told in whole minutes below an hour, in whole hours below a day, and in
/// whole days from there on, rounded down; less than a minute, and a time that is yet
/// to come, is just now.
pub proof fn law_ages(now: u64, then: u64)
    ensures
        now < then + 60 ==> age_text(now, then) == "just now"@,
        then + 60 <= now < then + 3600 ==> exists|n: nat|
            60 * n <= now - then < 60 * (n + 1) && age_text(now, then) == #[trigger] decimal(n)
                + " min ago"@,
        then + 3600 <= now < then + 86_400 ==> exists|n: nat|
            3600 * n <= now - then < 3600 * (n + 1) && age_text(now, then) == #[trigger] decimal(n)
                + " h ago"@,
        then + 86_400 <= now ==> exists|n: nat|
            86_400 * n <= now - then < 86_400 * (n + 1) && age_text(now, then)
                == #[trigger] decimal(n) + " d ago"@,
{
    if now >= then {
        let secs = (now - then) as nat;
        assert(age_text(now, then) == decimal(secs / 60) + " min ago"@ || secs < 60 || secs >= 3600);
        assert(age_text(now, then) == decimal(secs / 3600) + " h ago"@ || secs < 3600 || secs
            >= 86_400);
        assert(age_text(now, then) == decimal(secs / 86_400) + " d ago"@ || secs < 86_400);
    }
}

/// The short form of a key is its beginning: its first 16 bytes, or all of it where
/// it has no more.
pub proof fn law_short_key_is_the_beginning(key: Seq<char>)
    requires
        can_shorten(key),
    ensures
        ({
            let bytes = encode_utf8(key);
            encode_utf8(short_key_text(key)) == if bytes.len() <= 16 {
                bytes
            } else {
                bytes.take(16)
            }
        }),
{
    let bytes = encode_utf8(key);
    if bytes.len() > 16 {
        vstd::utf8::encode_utf8_valid_utf8(key);
        assert(bytes.take(16) =~= bytes.subrange(0, 16));
        vstd::utf8::valid_utf8_split(bytes, 16);
        vstd::utf8::decode_utf8_encode_utf8(bytes.take(16));
    }
}

} // verus!

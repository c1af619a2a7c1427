use dragonfly_gguf::tracker::store::{ContentMeta, ContentSummary, PeerStore};
use dragonfly_gguf::tracker::ui::{
    age, badge, escape, format_badge, format_facets, frame, has_short_keys, human_size, option_tag,
    page, page_at, render_page, row, row_with, short_key, try_page, try_page_at,
};

#[test]
fn escapes_untrusted_filenames() {
    let mut store = PeerStore::new(1800, 100);
    store.announce(
        "a".repeat(64),
        "n1".into(),
        "{}".into(),
        Some(ContentMeta {
            filename: Some("<script>alert(1)</script>.gguf".into()),
            format: Some("gguf".into()),
            size: Some(1),
        }),
    );
    let html = page(&store, None, None, 100);
    assert!(!html.contains("<script>alert(1)</script>"));
    assert!(html.contains("&lt;script&gt;alert(1)&lt;/script&gt;.gguf"));
}

#[test]
fn renders_rows_and_filters() {
    let mut store = PeerStore::new(1800, 100);
    store.announce(
        "a".repeat(64),
        "n1".into(),
        "{}".into(),
        Some(ContentMeta {
            filename: Some("model.safetensors".into()),
            format: Some("safetensors".into()),
            size: Some(1_717_986_918), // ~1.6 GB
        }),
    );
    let html = page(&store, None, None, 100);
    assert!(html.contains("model.safetensors"));
    assert!(html.contains("SAFETENSORS"));
    assert!(html.contains("1.6 GB"));

    // A format filter that matches nothing renders the empty state but
    // still offers the existing formats in the dropdown.
    let filtered = page(&store, Some("gguf"), None, 100);
    assert!(filtered.contains("Nothing is seeded"));
    assert!(filtered.contains(r#"<option value="safetensors">"#));
}

#[test]
fn human_sizes_and_ages() {
    assert_eq!(human_size(740), "740 B");
    assert_eq!(human_size(512 * 1024 * 1024), "512.0 MB");
    assert_eq!(human_size(43_180_465_192), "40.2 GB");
    assert_eq!(age(1000, 1000), "just now");
    assert_eq!(age(1000 + 300, 1000), "5 min ago");
    assert_eq!(age(1000 + 7200, 1000), "2 h ago");
    assert_eq!(age(1000 + 3 * 86_400, 1000), "3 d ago");
}

/// The size by the floating-point formatting of std.
fn size_by_floats(bytes: u64) -> String {
    const UNITS: [&str; 5] = ["B", "KB", "MB", "GB", "TB"];
    let mut v = bytes as f64;
    let mut unit = 0;
    while v >= 1024.0 && unit < UNITS.len() - 1 {
        v /= 1024.0;
        unit += 1;
    }
    if unit == 0 {
        format!("{bytes} B")
    } else {
        format!("{v:.1} {}", UNITS[unit])
    }
}

#[test]
fn sizes_are_those_of_floats() {
    let mut samples: Vec<u64> = vec![0, 1, 740, 1023, 1024, 1025, u64::MAX, u64::MAX - 1];
    for shift in 0..64 {
        let p = 1u64 << shift;
        for d in 0..40 {
            samples.push(p.saturating_add(d));
            samples.push(p.saturating_sub(d));
            samples.push(p.saturating_add(p / 40 * d));
            samples.push(p.saturating_add(p / 20 * d + 1));
        }
    }
    // Halfway cases, which are rounded to the even digit.
    for k in 0..2000u64 {
        samples.push(1024 + k * 64);
        samples.push((1 << 20) + k * 65_536);
        samples.push((1 << 50) + k * (1 << 36) + 1);
    }
    let mut x: u64 = 88_172_645_463_325_252;
    for _ in 0..20_000 {
        x ^= x << 13;
        x ^= x >> 7;
        x ^= x << 17;
        samples.push(x);
        samples.push(x >> (x % 60));
    }
    for n in samples {
        assert_eq!(human_size(n), size_by_floats(n));
    }
}

#[test]
fn ages_change_at_these_seconds() {
    assert_eq!(age(59, 0), "just now");
    assert_eq!(age(60, 0), "1 min ago");
    assert_eq!(age(3599, 0), "59 min ago");
    assert_eq!(age(3600, 0), "1 h ago");
    assert_eq!(age(86_399, 0), "23 h ago");
    assert_eq!(age(86_400, 0), "1 d ago");
    // A clock that stands earlier than the announce.
    assert_eq!(age(5, 9000), "just now");
}

#[test]
fn escaping_is_exact() {
    assert_eq!(escape("a&b<c>\"d\"'e'é"), "a&amp;b&lt;c&gt;&quot;d&quot;&#39;e&#39;é");
    assert_eq!(escape("&lt;"), "&amp;lt;");
    assert_eq!(escape(""), "");
}

#[test]
fn badges_have_colours_for_known_formats() {
    assert_eq!(
        badge(Some("gguf")),
        "<span class=\"badge badge-gguf\">GGUF</span>"
    );
    for known in ["safetensors", "bin", "pt", "onnx"] {
        assert!(badge(Some(known)).contains(&format!("badge badge-{known}\"")));
    }
    assert_eq!(badge(Some("<x>ß")), "<span class=\"badge\">&lt;X&gt;SS</span>");
    assert_eq!(badge(None), "<span class=\"badge\">?</span>");
    assert_eq!(
        format_badge("bin", "B&N"),
        "<span class=\"badge badge-bin\">B&amp;N</span>"
    );
}

fn summary(key: &str, format: Option<&str>) -> ContentSummary {
    ContentSummary {
        content_key: key.to_string(),
        filename: None,
        format: format.map(|f| f.to_string()),
        size: None,
        providers: 3,
        last_seen: 1000,
        first_seen: 400,
    }
}

#[test]
fn rows_are_exact() {
    let mut c = summary("0123456789abcdefFFFF", Some("gguf"));
    assert_eq!(
        row(1000, &c),
        "<tr><td><span class=\"badge badge-gguf\">GGUF</span></td><td>(unnamed)<br>\
         <span class=\"key\" title=\"0123456789abcdefFFFF\">0123456789abcdef…</span></td>\
         <td class=\"num\">—</td><td class=\"num seeds\">3</td><td>10 min ago</td></tr>"
    );
    c.filename = Some("a<b".to_string());
    c.size = Some(2048);
    assert_eq!(
        row_with(1000, &c, "B"),
        "<tr><td>B</td><td>a&lt;b<br>\
         <span class=\"key\" title=\"0123456789abcdefFFFF\">0123456789abcdef…</span></td>\
         <td class=\"num\">2.0 KB</td><td class=\"num seeds\">3</td><td>10 min ago</td></tr>"
    );
    assert_eq!(short_key("short"), "short");
    assert_eq!(short_key("0123456789abcde"), "0123456789abcde");
    assert_eq!(short_key("éééééééé!"), "éééééééé");
}

#[test]
fn dropdown_holds_the_formats_once_and_in_order() {
    let all = vec![
        summary("1", Some("gguf")),
        summary("2", None),
        summary("3", Some("Bin")),
        summary("4", Some("GGUF")),
        summary("5", Some("b")),
        summary("6", Some("zip")),
        summary("7", Some("bin")),
        summary("8", Some("ÉA")),
    ];
    assert_eq!(
        format_facets(&all),
        vec!["b", "bin", "gguf", "zip", "Éa"]
    );
    assert_eq!(
        option_tag("a\"b", "A\"B", true),
        "<option value=\"a&quot;b\" selected>A&quot;B</option>"
    );
    assert_eq!(
        option_tag("gguf", "GGUF", false),
        "<option value=\"gguf\">GGUF</option>"
    );
}

#[test]
fn pages_are_exact() {
    let all = vec![summary("1", Some("gguf")), summary("2", Some("Pt"))];
    let rows = vec![summary("1", Some("gguf"))];
    let html = render_page(1000, &all, &rows, Some("GGUF"), Some("a&b"));
    assert!(html.starts_with("<!doctype html>\n<html lang=\"en\"><head><meta charset=\"utf-8\">\n"));
    assert!(html.contains("value=\"a&amp;b\">\n  <select name=\"format\">\n    <option value=\"\">all types</option>\n    <option value=\"gguf\" selected>GGUF</option><option value=\"pt\">PT</option>\n  </select>"));
    assert!(html.contains(&row(1000, &rows[0])));
    assert!(html.contains("</tbody></table>\n<footer>1 listed &middot;"));
    assert!(html.ends_with("</code></footer>\n</body></html>"));

    let empty = render_page(1000, &all, &vec![], None, None);
    assert!(empty.contains("</form>\n<p class=\"empty\">Nothing is seeded (or matches the filter) right now. Pull a file with dfget and it will appear here.</p>\n<footer>0 listed"));
    assert!(!empty.contains(" selected"));
    assert!(empty.contains("placeholder=\"search filename&#8230;\" value=\"\">"));

    assert!(frame("q", "OPTIONS", "BODY", 12).contains("    OPTIONS\n  </select>"));
}

#[test]
fn page_filters_by_format_and_query() {
    let mut store = PeerStore::new(60, 9);
    for (key, name, format) in [("a", "One.gguf", "gguf"), ("b", "two.bin", "bin")] {
        store.announce_at(
            key.into(),
            "n".into(),
            "{}".into(),
            Some(ContentMeta {
                filename: Some(name.into()),
                format: Some(format.into()),
                size: None,
            }),
            100,
        );
    }
    let html = page_at(&store, Some("GGUF"), Some("ONE"), Some("one"), 9, 100);
    assert!(html.contains("One.gguf"));
    assert!(!html.contains("two.bin"));
    assert!(html.contains("<option value=\"bin\">BIN</option>"));
    assert!(html.contains("<option value=\"gguf\" selected>GGUF</option>"));
    assert!(html.contains("value=\"ONE\">"));

    // The dropdown is the same whatever is filtered by, but for the mark.
    let dropdown = |html: &str| -> String {
        let from = html.find("<select").unwrap();
        let to = html.find("</select>").unwrap();
        html[from..to].replace(" selected", "")
    };
    for (format, q) in [
        (None, None),
        (Some("Bin"), None),
        (Some("zip"), Some("x")),
        (None, Some("x")),
    ] {
        let other = page_at(&store, format, q, q, 9, 100);
        assert_eq!(dropdown(&other), dropdown(&html));
        let marks = other.matches(" selected").count();
        assert_eq!(marks, if format == Some("Bin") { 1 } else { 0 });
        let rows = other.matches("<tr><td>").count();
        assert!(other.contains(&format!("<footer>{rows} listed")));
        assert_eq!(other.contains("<p class=\"empty\">"), rows == 0);
    }
    assert!(has_short_keys(&store));

    let late = page_at(&store, None, None, None, 9, 161);
    assert!(late.contains("Nothing is seeded"));
}

#[test]
fn page_needs_only_the_listed_keys_short() {
    let mut store = PeerStore::new(60, 9);
    let odd = format!("a{}", "é".repeat(9));
    store.announce_at(odd.clone(), "n".into(), "{}".into(), None, 100);
    assert!(!has_short_keys(&store));
    assert!(try_page_at(&store, None, None, None, 9, 160).is_none());
    // Expired, filtered out, or cut off.
    let late = try_page_at(&store, None, None, None, 9, 161).unwrap();
    assert!(late.contains("<footer>0 listed"));
    assert_eq!(late, page_at(&store, None, None, None, 9, 161));
    let other = try_page_at(&store, Some("gguf"), None, None, 9, 160).unwrap();
    assert!(other.contains("<footer>0 listed"));
    assert!(try_page_at(&store, None, Some("X"), Some("x"), 9, 160).is_some());
    assert!(try_page_at(&store, None, None, None, 0, 160).is_some());
    assert!(try_page(&store, None, None, 9).unwrap().contains("<footer>0 listed"));
    store.announce(odd, "n".into(), "{}".into(), None);
    assert!(try_page(&store, None, None, 9).is_none());
    assert!(try_page(&store, Some("gguf"), None, 9).is_some());
}

#[test]
fn rows_have_the_same_markup() {
    let texts = ["", "a", "<b>\"'&", "\"><script>alert('1')</script>", "</td></tr>", "ß<é>"];
    for name in texts {
        for format in ["gguf", "onnx", "<x>", "\"'", "z"] {
            for size in [None, Some(0), Some(5000), Some(u64::MAX)] {
                let mut c = summary(&format!("{name}0123456789abcdefghij"), Some(format));
                c.filename = Some(name.to_string());
                c.size = size;
                for html in [row(0, &c), row(90_000, &c)] {
                    assert_eq!(html.matches('<').count(), 17);
                    assert_eq!(html.matches('>').count(), 17);
                    assert_eq!(html.matches('"').count(), 10);
                    assert_eq!(html.matches('\'').count(), 0);
                    assert!(html.contains(&format!("</td><td>{}<br>", escape(name))));
                }
            }
        }
    }
    let bare = row(0, &summary("k", None));
    assert_eq!(bare.matches('<').count(), 17);
    assert_eq!(bare.matches('"').count(), 10);
}

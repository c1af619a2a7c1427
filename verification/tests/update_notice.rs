use dragonfly_gguf::dfget::update_notice::{
    after_fetch, cache_path, collect_lines, env_disabled, first_step, fresh_cache, render,
    CachedNotice, Notice, NoticeStep, CACHE_TTL_SECS, CURRENT_VERSION,
};
use dragonfly_gguf::dfget::version::is_newer;
use dragonfly_gguf::paths::Base;
use std::path::PathBuf;

#[test]
fn test_is_newer_basic() {
    assert!(is_newer("1.4.0", "1.3.12"));
    assert!(is_newer("2.0.0", "1.9.9"));
    assert!(is_newer("1.3.13", "1.3.12"));
    assert!(!is_newer("1.3.12", "1.3.12"));
    assert!(!is_newer("1.3.11", "1.3.12"));
    assert!(!is_newer("1.2.0", "1.3.0"));
}

#[test]
fn test_is_newer_handles_prefixes_and_suffixes() {
    assert!(is_newer("v1.4.0", "1.3.0"));
    assert!(!is_newer("v1.3.0", "v1.3.0"));
    assert!(is_newer("1.4.0-rc1", "1.3.0"));
    // Differing component lengths: missing trailing parts are zero.
    assert!(!is_newer("1.4", "1.4.0"));
    assert!(is_newer("1.4.1", "1.4"));
}

#[test]
fn test_is_newer_garbage_is_safe() {
    assert!(!is_newer("", "1.3.0"));
    assert!(!is_newer("not-a-version", "1.3.0"));
}

#[test]
fn is_newer_ignores_what_is_no_number() {
    assert!(!is_newer("vV1.3.0", "1.3.0"));
    assert!(!is_newer("  1.3.0\n", "1.3.0"));
    assert!(is_newer("1.3.1x9", "1.3.0"));
    assert!(!is_newer("v 9.0", "0.1"));
    // A component that does not fit into 64 bits counts as zero.
    assert!(is_newer("18446744073709551615", "18446744073709551614"));
    assert!(!is_newer("18446744073709551616", "0"));
    assert!(!is_newer("99999999999999999999999", "1"));
}

#[test]
fn newer_is_an_order() {
    let versions = ["0.9", "1.3.11", "1.3.12", "1.4", "1.4.1", "2"];
    for i in 0..versions.len() {
        for j in 0..versions.len() {
            assert_eq!(is_newer(versions[i], versions[j]), i > j);
        }
    }
    assert!(!is_newer("1.4.0", "1.4"));
    assert!(!is_newer("1.4.0.0", "1.4"));
    assert!(is_newer("1.4.0.1", "1.4"));
}

#[test]
fn test_collect_lines_message_only() {
    let notice = Notice {
        latest_version: None,
        message: Some("  hello world  ".to_string()),
        url: None,
    };
    assert_eq!(collect_lines(&notice), vec!["hello world".to_string()]);
}

#[test]
fn test_collect_lines_multiline_message() {
    let notice = Notice {
        message: Some("line one\nline two".to_string()),
        ..Default::default()
    };
    assert_eq!(
        collect_lines(&notice),
        vec!["line one".to_string(), "line two".to_string()]
    );
}

#[test]
fn test_collect_lines_version_newer() {
    let notice = Notice {
        latest_version: Some("9.9.9".to_string()),
        message: None,
        url: Some("https://example.com".to_string()),
    };
    let lines = collect_lines(&notice);
    assert_eq!(lines.len(), 2);
    assert!(lines[0].contains("9.9.9"));
    assert!(lines[1].contains("https://example.com"));
}

#[test]
fn test_collect_lines_version_not_newer_is_silent() {
    let notice = Notice {
        latest_version: Some("0.0.1".to_string()),
        message: None,
        url: Some("https://example.com".to_string()),
    };
    assert!(collect_lines(&notice).is_empty());
}

#[test]
fn test_collect_lines_empty_notice_is_silent() {
    assert!(collect_lines(&Notice::default()).is_empty());
}

#[test]
fn collect_lines_says_exactly_this() {
    let notice = Notice {
        latest_version: Some("v2.0".to_string()),
        message: Some("\n one\r\n\ntwo\rthree \t".to_string()),
        url: Some("  https://example.com/up \n".to_string()),
    };
    assert_eq!(
        collect_lines(&notice),
        vec![
            "one".to_string(),
            "".to_string(),
            "two\rthree".to_string(),
            "A new version of dfget is available: 1.3.12 -> v2.0".to_string(),
            "Upgrade: https://example.com/up".to_string(),
        ]
    );
    assert_eq!(CURRENT_VERSION, "1.3.12");

    let blank = Notice {
        latest_version: Some("2".to_string()),
        message: Some(" \u{3000}\n".to_string()),
        url: Some("   ".to_string()),
    };
    assert_eq!(
        collect_lines(&blank),
        vec!["A new version of dfget is available: 1.3.12 -> 2".to_string()]
    );
}

#[test]
fn trimming_and_lines_are_those_of_strings() {
    let texts = [
        "",
        " ",
        "a",
        "\u{a0}a b\u{2003}\u{85}",
        "a\nb\r\nc\n",
        "a\n\nb",
        "\r\n",
        "x\r",
        "\u{200b}x\u{200b}",
        "é\n\u{2028}ü",
    ];
    for text in texts {
        let notice = Notice {
            message: Some(text.to_string()),
            ..Default::default()
        };
        let expected: Vec<String> = text.trim().lines().map(|l| l.to_string()).collect();
        assert_eq!(collect_lines(&notice), expected);
    }
}

#[test]
fn render_boxes_the_lines() {
    let lines = vec!["one".to_string(), "two".to_string()];
    assert_eq!(
        render(&lines, false),
        vec![
            "".to_string(),
            "╭─ dragonfly-gguf notice ─────────────────────────────╮".to_string(),
            "│ one".to_string(),
            "│ two".to_string(),
            "╰─────────────────────────────────────────────────────╯".to_string(),
        ]
    );
    let coloured = render(&lines, true);
    assert_eq!(coloured[2], "\u{1b}[1;33m│\u{1b}[0m one");
    assert_eq!(
        coloured[1],
        "\u{1b}[1;33m╭─ dragonfly-gguf notice ─────────────────────────────╮\u{1b}[0m"
    );
}

#[test]
fn any_value_of_the_variable_disables() {
    assert!(!env_disabled(None));
    assert!(!env_disabled(Some(&vec![])));
    assert!(env_disabled(Some(&vec![b'0'])));
}

fn cached(at: u64) -> Option<CachedNotice> {
    Some(CachedNotice {
        fetched_at_secs: at,
        notice: Notice {
            message: Some("hi".to_string()),
            ..Default::default()
        },
    })
}

#[test]
fn cache_is_good_for_a_day() {
    assert_eq!(CACHE_TTL_SECS, 86_400);
    assert!(fresh_cache(cached(1000), 1000 + 86_400).is_some());
    assert!(fresh_cache(cached(1000), 1000 + 86_401).is_none());
    // A clock that was set back keeps the notice.
    assert!(fresh_cache(cached(1000), 5).is_some());
    assert!(fresh_cache(None, 5).is_none());
}

#[test]
fn check_runs_by_steps() {
    assert!(matches!(
        first_step(true, None, cached(0), 0),
        NoticeStep::Stop
    ));
    assert!(matches!(
        first_step(false, Some(&vec![1]), cached(0), 0),
        NoticeStep::Stop
    ));
    assert!(matches!(
        first_step(false, None, None, 0),
        NoticeStep::Fetch
    ));
    assert!(matches!(
        first_step(false, None, cached(0), 100_000),
        NoticeStep::Fetch
    ));
    match first_step(false, None, cached(0), 10) {
        NoticeStep::Show(lines) => assert_eq!(lines, vec!["hi".to_string()]),
        _ => panic!("the cached notice is shown"),
    }

    let (step, keep) = after_fetch(None, 7);
    assert!(matches!(step, NoticeStep::Stop));
    assert!(keep.is_none());
    let (step, keep) = after_fetch(Some(Notice::default()), 7);
    assert!(matches!(step, NoticeStep::Stop));
    // Kept until a day later, so that nothing is fetched in between.
    let keep = keep.unwrap();
    assert_eq!(keep.fetched_at_secs, 7);
    assert!(!matches!(
        first_step(false, None, Some(keep), 7 + 86_400),
        NoticeStep::Fetch
    ));
}

#[test]
fn cache_file_is_below_home() {
    let place = cache_path(Some(PathBuf::from("/home/me")));
    assert!(matches!(place.base, Base::Dir(d) if d == PathBuf::from("/home/me")));
    assert_eq!(
        place.names,
        vec![
            ".cache".to_string(),
            "dragonfly".to_string(),
            "gguf-update-notice.json".to_string()
        ]
    );
    let place = cache_path(None);
    assert!(matches!(place.base, Base::MachineTemp));
    assert_eq!(place.names, vec!["gguf-update-notice.json".to_string()]);
}

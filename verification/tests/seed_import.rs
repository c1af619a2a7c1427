use dragonfly_gguf::dfget::seed_import::{
    candidate_key, found_text, import_step, outcome_text, scanning_text, summary, ImportStep,
    Outcome,
};
use dragonfly_gguf::p2p::content_key::content_key;
use dragonfly_gguf::p2p::seed_import::{
    default_hf_cache_dir, is_gguf_file, repo_of, scan_hf_cache, CacheCommit, CacheEntry,
    CacheFile, SeedCandidate,
};
use dragonfly_gguf::paths::Base;
use std::path::PathBuf;

fn cache_file(name: &str) -> CacheFile {
    CacheFile {
        name: name.to_string(),
        resolved: Some(PathBuf::from(format!("/blobs/{name}"))),
    }
}

fn make_hf_cache(owner: &str, repo: &str, commit: &str, files: &[&str]) -> CacheEntry {
    CacheEntry {
        name: format!("models--{owner}--{repo}"),
        commits: vec![CacheCommit {
            name: commit.to_string(),
            is_dir: true,
            files: files.iter().map(|f| cache_file(f)).collect(),
        }],
    }
}

#[test]
fn scan_finds_gguf_files() {
    let entries = vec![
        make_hf_cache(
            "bartowski",
            "Qwen2-0.5B-Instruct-GGUF",
            "abc123def456",
            &[
                "Qwen2-0.5B-Instruct-Q4_K_M.gguf",
                "Qwen2-0.5B-Instruct-Q8_0.gguf",
            ],
        ),
        make_hf_cache(
            "meta-llama",
            "Llama-3-8B-Instruct",
            "deadbeef0000",
            &["Meta-Llama-3-8B-Instruct-Q4_K_M.gguf"],
        ),
    ];

    let candidates = scan_hf_cache(entries);
    assert_eq!(candidates.len(), 3);

    let urls: Vec<&str> = candidates.iter().map(|c| c.gguf_url.as_str()).collect();
    assert!(urls
        .iter()
        .any(|u| u.starts_with("gguf://bartowski/Qwen2-0.5B-Instruct-GGUF/")));
    assert!(urls
        .iter()
        .any(|u| u.starts_with("gguf://meta-llama/Llama-3-8B-Instruct/")));

    let revisions: Vec<&str> = candidates.iter().map(|c| c.revision.as_str()).collect();
    assert!(revisions.contains(&"abc123def456"));
    assert!(revisions.contains(&"deadbeef0000"));
}

#[test]
fn scan_skips_non_gguf_files() {
    let entries = vec![make_hf_cache(
        "owner",
        "repo",
        "rev123",
        &["config.json", "model.safetensors", "model.gguf"],
    )];
    let candidates = scan_hf_cache(entries);
    assert_eq!(candidates.len(), 1);
    assert!(candidates[0].gguf_url.ends_with("model.gguf"));
}

#[test]
fn scan_empty_cache_returns_nothing() {
    assert!(scan_hf_cache(vec![]).is_empty());
}

#[test]
fn scan_follows_the_layout() {
    let mut dangling = make_hf_cache("o", "r", "c1", &["a.gguf", "b.gguf"]);
    dangling.commits[0].files[0].resolved = None;
    dangling.commits.push(CacheCommit {
        name: "c2".to_string(),
        is_dir: false,
        files: vec![cache_file("c.gguf")],
    });
    let mut other = make_hf_cache("o", "r", "c", &["d.gguf"]);
    other.name = "datasets--o--r".to_string();
    let mut single = make_hf_cache("o", "r", "c", &["e.gguf"]);
    single.name = "models--gpt2".to_string();
    let found = scan_hf_cache(vec![other, dangling, single]);
    assert_eq!(found.len(), 1);
    assert_eq!(found[0].gguf_url, "gguf://o/r/b.gguf");
    assert_eq!(found[0].revision, "c1");
    assert_eq!(found[0].file_path, PathBuf::from("/blobs/b.gguf"));
}

#[test]
fn directories_name_repositories() {
    let repo = |dir: &str| repo_of(dir);
    let pair = |a: &str, b: &str| Some((a.to_string(), b.to_string()));
    assert_eq!(repo("models--a--b"), pair("a", "b"));
    assert_eq!(repo("models--a--b--c"), pair("a", "b--c"));
    assert_eq!(repo("models--a---b"), pair("a", "-b"));
    assert_eq!(repo("models----b"), pair("", "b"));
    assert_eq!(repo("models--a--"), pair("a", ""));
    assert_eq!(repo("models--a-b"), None);
    assert_eq!(repo("models-a--b"), None);
    assert_eq!(repo(""), None);
    for rest in ["x--y", "é--ü--", "-", "--", "---", "a-b--c-d"] {
        let by_str = rest
            .split_once("--")
            .map(|(a, b)| (a.to_string(), b.to_string()));
        assert_eq!(repo(&format!("models--{rest}")), by_str);
    }
    assert!(is_gguf_file("x.gguf"));
    assert!(is_gguf_file(".gguf"));
    assert!(!is_gguf_file("x.GGUF"));
    assert!(!is_gguf_file("gguf"));
}

#[test]
fn cache_directory_follows_the_environment() {
    let dir = |hf: Option<&str>, xdg: Option<&str>, home: Option<&str>| {
        let place = default_hf_cache_dir(
            hf.map(PathBuf::from),
            xdg.map(PathBuf::from),
            home.map(PathBuf::from),
        );
        let base = match place.base {
            Base::Dir(d) => d,
            Base::Tmp => PathBuf::from("/tmp"),
            Base::MachineTemp => panic!("not below the machine's own"),
        };
        place.names.iter().fold(base, |path, name| path.join(name))
    };
    assert_eq!(
        dir(Some("/hf"), Some("/x"), Some("/h")),
        PathBuf::from("/hf/hub")
    );
    assert_eq!(
        dir(None, Some("/x"), Some("/h")),
        PathBuf::from("/x/huggingface/hub")
    );
    assert_eq!(
        dir(None, None, Some("/h")),
        PathBuf::from("/h/.cache/huggingface/hub")
    );
    assert_eq!(dir(None, None, None), PathBuf::from("/tmp/huggingface/hub"));
}

fn candidate() -> SeedCandidate {
    SeedCandidate {
        gguf_url: "gguf://o/r/m.gguf".to_string(),
        revision: "rev1".to_string(),
        file_path: PathBuf::from("/blobs/x"),
    }
}

#[test]
fn candidates_have_the_keys_of_their_source() {
    assert_eq!(
        candidate_key(&candidate()),
        content_key("hf://o/r/m.gguf", "rev1", None)
    );
}

#[test]
fn dry_run_registers_nothing() {
    let expected = content_key("gguf://o/r/m.gguf", "rev1", None);
    match import_step(true, &candidate()) {
        ImportStep::Show { shown_key } => assert_eq!(shown_key, expected),
        ImportStep::Register { .. } => panic!("a dry run registers nothing"),
    }
    match import_step(false, &candidate()) {
        ImportStep::Register { key } => assert_eq!(key, expected),
        ImportStep::Show { .. } => panic!("every candidate is registered"),
    }
}

#[test]
fn import_says_what_it_does() {
    assert_eq!(scanning_text("/c"), "Scanning /c …");
    assert_eq!(found_text("/c", 0), "No .gguf files found in /c");
    assert_eq!(found_text("/c", 12), "Found 12 .gguf file(s):\n");

    let key = format!("01234567{}", "a".repeat(56));
    let c = candidate();
    assert_eq!(
        outcome_text(&c, &key, &Outcome::DryRun("/blobs/x".to_string())),
        "  [dry-run] gguf://o/r/m.gguf\n    rev:  rev1\n    path: /blobs/x\n    key:  01234567…\n"
    );
    assert_eq!(
        outcome_text(&c, &key, &Outcome::Registered),
        "  ✓ gguf://o/r/m.gguf (01234567…)"
    );
    assert_eq!(
        outcome_text(&c, &key, &Outcome::Failed("disk full".to_string())),
        "  ✗ gguf://o/r/m.gguf: disk full"
    );
}

#[test]
fn import_sums_up() {
    let some = vec![
        Outcome::Registered,
        Outcome::Failed("x".to_string()),
        Outcome::Registered,
    ];
    assert_eq!(
        summary(false, &some, "/reg"),
        vec![
            "",
            "2 seed(s) registered, 1 failed",
            "\nManifests written to /reg",
            "A running dfdaemon will pick them up within ~30 seconds and begin announcing."
        ]
    );
    let none = vec![Outcome::Failed("x".to_string())];
    assert_eq!(
        summary(false, &none, "/reg"),
        vec!["", "0 seed(s) registered, 1 failed"]
    );
    let dry = vec![Outcome::DryRun("p".to_string())];
    assert_eq!(
        summary(true, &dry, "/reg"),
        vec![
            "",
            "1 file(s) would be registered (--dry-run, nothing written)"
        ]
    );
    assert_eq!(
        summary(false, &vec![Outcome::Registered], "/r")[1],
        "1 seed(s) registered"
    );
}

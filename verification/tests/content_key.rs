use dragonfly_gguf::p2p::content_key::{content_key, content_key_input, key_of_digest};
use dragonfly_gguf::p2p::tracker::DEFAULT_TRACKER_URL;
use dragonfly_gguf::tracker::routes::{valid_content_key, valid_query_key};
use sha2::Digest;

#[test]
fn test_content_key_stability() {
    let k1 = content_key("gguf://owner/repo/model.gguf", "main", None);
    let k2 = content_key("gguf://owner/repo/model.gguf", "main", None);
    assert_eq!(k1, k2);
    assert_eq!(k1.len(), 64);
}

#[test]
fn test_content_key_is_case_sensitive() {
    // Hugging Face files are case-sensitive git blobs, so distinct casing must
    // produce distinct keys — a peer must never serve the wrong file.
    let k1 = content_key("gguf://Owner/Repo/Model.gguf", "main", None);
    let k2 = content_key("gguf://owner/repo/model.gguf", "main", None);
    assert_ne!(k1, k2);
}

#[test]
fn test_content_key_revision_matters() {
    let k1 = content_key("gguf://owner/repo/model.gguf", "main", None);
    let k2 = content_key("gguf://owner/repo/model.gguf", "v1.0", None);
    assert_ne!(k1, k2);
}

#[test]
fn test_content_key_base_url_matters() {
    // The same path on two different mirrors must not collide.
    let k1 = content_key("gguf://owner/repo/model.gguf", "main", Some("https://hf.co"));
    let k2 = content_key(
        "gguf://owner/repo/model.gguf",
        "main",
        Some("https://mirror.example"),
    );
    assert_ne!(k1, k2);

    // None and "" are the same default.
    let k3 = content_key("gguf://owner/repo/model.gguf", "main", None);
    let k4 = content_key("gguf://owner/repo/model.gguf", "main", Some(""));
    assert_eq!(k3, k4);
}

#[test]
fn test_content_key_no_spurious_pipe() {
    // The input string is "hf://...:main", not "|hf://...:main".
    let k_no_base = content_key("hf://owner/repo/model.gguf", "main", None);
    let k_pipe = hex::encode(sha2::Sha256::digest(b"|hf://owner/repo/model.gguf:main"));
    assert_ne!(
        k_no_base, k_pipe,
        "content_key must not include a spurious leading pipe"
    );
    let expected = hex::encode(sha2::Sha256::digest(b"hf://owner/repo/model.gguf:main"));
    assert_eq!(k_no_base, expected);
}

#[test]
fn key_is_taken_of_this_text() {
    assert_eq!(
        content_key_input("gguf://o/r/m.gguf", "main", Some("https://hf.co")),
        "hf://o/r/m.gguf:main:https://hf.co"
    );
    assert_eq!(content_key_input("hf://o/r", "", None), "hf://o/r:");
    assert_eq!(content_key_input("hf://x", "y", Some("")), "hf://x:y");
    // A URL without a scheme is joined as it is, too.
    assert_eq!(content_key_input("x", "y", Some("")), "x:y");
    assert_eq!(content_key_input("m.gguf", "main", None), "m.gguf:main");
    assert_eq!(content_key_input("m", "//main", None), "m://main");
    assert_eq!(content_key_input("", "main", None), ":main");
    assert_eq!(
        content_key_input("m.gguf", "main", Some("https://hf.co:80")),
        "m.gguf:main:https://hf.co:80"
    );
    // Where colons could be mistaken for those between the parts, they are replaced.
    assert_eq!(content_key_input("hf", "//x", Some("main")), ":hf://x:main");
    assert_eq!(content_key_input("", "x", Some("main")), "::x:main");
    assert_eq!(content_key_input("hf://x", "a:b", None), ":hf%3A//x:a%3Ab");
    assert_eq!(
        content_key_input("gguf://h:80/r%3A", "v1", Some("https://hf.co")),
        ":hf%3A//h%3A80/r%253A:v1:https://hf.co"
    );
    assert_eq!(
        content_key("gguf://o/r/m.gguf", "v1", None),
        content_key("hf://o/r/m.gguf", "v1", None)
    );
}

#[test]
fn colons_never_make_keys_the_same() {
    assert_ne!(
        content_key("gguf://o/r/m.gguf", "main:x", None),
        content_key("gguf://o/r/m.gguf", "main", Some("x"))
    );
    // Different files, revisions and hosts, all of them close.
    let urls = ["hf://x", "hf://x:a", "hf%3A//x", "x", "", ":", "hf://x%3Aa", "hf", "hf:", "//"];
    let parts = ["", "a", "a:b", ":", "b", "%3A", "%", "//x", "//x:a", "//"];
    let mut keys = Vec::new();
    for url in urls {
        for revision in parts {
            keys.push(content_key(url, revision, None));
            for host in parts.iter().filter(|h| !h.is_empty()) {
                keys.push(content_key(url, revision, Some(host)));
            }
        }
    }
    let all = keys.len();
    keys.sort();
    keys.dedup();
    assert_eq!(keys.len(), all);
}

#[test]
fn digests_are_written_in_hex() {
    assert_eq!(key_of_digest(&vec![0, 1, 15, 16, 171, 255]), "00010f10abff");
    assert_eq!(key_of_digest(&vec![]), "");
    // The digest of a lone colon.
    assert_eq!(
        content_key("", "", None),
        "e7ac0786668e0ff0f02b62bd04f45ff636fd82db63b1104601c975dc005f3a67"
    );
}

#[test]
fn trackers_accept_the_keys() {
    assert!(valid_content_key(&content_key("gguf://ö/é", "ü", Some("ä"))));
    assert!(valid_query_key(&content_key("gguf://ö/é", "ü", Some("ä"))));
    assert_eq!(DEFAULT_TRACKER_URL, "https://tracker.dragonfly-gguf.dev");
}

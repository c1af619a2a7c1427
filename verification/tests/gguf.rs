use dragonfly_gguf::gguf::{Gguf, GgufError, ParsedUrl};

#[test]
fn test_to_hf_url() {
    assert_eq!(
        Gguf::to_hf_url("gguf://a/b/x.gguf").ok().unwrap(),
        "hf://a/b/x.gguf"
    );
}

#[test]
fn test_to_hf_url_rejects_other_scheme() {
    assert!(Gguf::to_hf_url("hf://a/b/x.gguf").is_err());
}

#[test]
fn test_validate_gguf_accepts_gguf() {
    let url = ParsedUrl::parse("gguf://a/b/x.gguf").ok().unwrap();
    assert!(Gguf::validate_gguf(&url).is_ok());
}

#[test]
fn test_validate_gguf_accepts_uppercase_extension() {
    let url = ParsedUrl::parse("gguf://a/b/x.GGUF").ok().unwrap();
    assert!(Gguf::validate_gguf(&url).is_ok());
}

#[test]
fn test_validate_gguf_rejects_safetensors() {
    let url = ParsedUrl::parse("gguf://a/b/x.safetensors").ok().unwrap();
    assert!(Gguf::validate_gguf(&url).is_err());
}

#[test]
fn test_validate_gguf_rejects_extensionless() {
    let url = ParsedUrl::parse("gguf://a/b/x").ok().unwrap();
    assert!(Gguf::validate_gguf(&url).is_err());
}

#[test]
fn test_scheme() {
    let backend = Gguf::new();
    assert_eq!(backend.scheme(), "gguf");
}

#[test]
fn url_is_read_by_its_parts() {
    let url = ParsedUrl::parse("gguf://Owner/repo/a b.gguf?x=1#y").ok().unwrap();
    assert_eq!(url.path, "/repo/a%20b.gguf");
    assert_eq!(url.text, "gguf://Owner/repo/a%20b.gguf?x=1#y");
}

#[test]
fn rewriting_says_why_not() {
    assert_eq!(
        Gguf::rewrite_url("gguf://TheBloke/Llama-2-7B-GGUF/llama-2-7b.Q4_K_M.gguf")
            .ok()
            .unwrap(),
        "hf://TheBloke/Llama-2-7B-GGUF/llama-2-7b.Q4_K_M.gguf"
    );
    // The query is no part of the path, and the rest stays as it was written.
    assert_eq!(
        Gguf::rewrite_url("gguf://a/b/x y.GgUf?q=1").ok().unwrap(),
        "hf://a/b/x y.GgUf?q=1"
    );
    match Gguf::rewrite_url("gguf://a/b/x.safetensors") {
        Err(GgufError::Unsupported(m)) => assert_eq!(
            m,
            "gguf backend only supports *.gguf files, got: gguf://a/b/x.safetensors"
        ),
        _ => panic!("another kind of file"),
    }
    match Gguf::rewrite_url("hf://a/b/x.gguf") {
        Err(GgufError::InvalidURI(m)) => assert_eq!(m, "hf://a/b/x.gguf"),
        _ => panic!("another scheme"),
    }
    assert!(matches!(
        Gguf::rewrite_url("no url"),
        Err(GgufError::ParseError(_))
    ));
    // The scheme is taken as it is written, not as the URL is normalised.
    assert!(matches!(
        Gguf::rewrite_url("GGUF://a/b/x.gguf"),
        Err(GgufError::InvalidURI(_))
    ));
}

#[test]
fn rewriting_parsed_urls_checks_the_kind_first() {
    let other = ParsedUrl {
        path: "/x.bin".to_string(),
        text: "T".to_string(),
    };
    match Gguf::rewrite_parsed("hf://a", &other) {
        Err(GgufError::Unsupported(m)) => {
            assert_eq!(m, "gguf backend only supports *.gguf files, got: T")
        }
        _ => panic!("the kind of file comes first"),
    }
}

#[test]
fn rewriting_loses_nothing_and_happens_once() {
    let once = Gguf::to_hf_url("gguf://a/b/c.gguf").ok().unwrap();
    assert!(Gguf::to_hf_url(&once).is_err());
    assert_ne!(once, Gguf::to_hf_url("gguf://a/b/C.gguf").ok().unwrap());
    assert_eq!(Gguf::to_hf_url("gguf://").ok().unwrap(), "hf://");
}

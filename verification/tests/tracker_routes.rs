use dragonfly_gguf::tracker::routes::{
    announce_meta, contents_limit, handle_announce, handle_announce_at, handle_contents,
    handle_index, handle_leave, handle_peers, handle_peers_at, valid_announce,
    valid_announce_given, valid_content_key, valid_meta, valid_query_key, AnnounceBody,
    ContentsQuery, LeaveBody, MAX_ADDR_INFO_LEN, MAX_FILENAME_LEN, MAX_FORMAT_LEN,
    MAX_NODE_ID_LEN, PeersQuery, Reply,
};
use dragonfly_gguf::tracker::store::{ClientAddr, PeerStore};

fn body(key: &str, node: &str, addr: &str) -> AnnounceBody {
    AnnounceBody {
        content_key: key.to_string(),
        node_id: node.to_string(),
        addr_info: addr.to_string(),
        filename: None,
        format: None,
        size: None,
    }
}

#[test]
fn accepts_well_formed_announce() {
    assert!(valid_announce(&body(&"a".repeat(64), "node-1", "{}")));
}

#[test]
fn rejects_malformed_announce() {
    // Wrong content_key length or non-hex characters.
    assert!(!valid_announce(&body(&"a".repeat(63), "node", "{}")));
    assert!(!valid_announce(&body(&"z".repeat(64), "node", "{}")));
    // Empty / oversized node id.
    assert!(!valid_announce(&body(&"a".repeat(64), "", "{}")));
    assert!(!valid_announce(&body(
        &"a".repeat(64),
        &"n".repeat(MAX_NODE_ID_LEN + 1),
        "{}"
    )));
    // Empty, non-JSON, or oversized addr_info.
    assert!(!valid_announce(&body(&"a".repeat(64), "node", "")));
    assert!(!valid_announce(&body(&"a".repeat(64), "node", "not json")));
    let huge = format!("\"{}\"", "x".repeat(MAX_ADDR_INFO_LEN));
    assert!(!valid_announce(&body(&"a".repeat(64), "node", &huge)));
}

#[test]
fn accepts_announce_with_metadata() {
    let mut b = body(&"a".repeat(64), "node-1", "{}");
    b.filename = Some("model.safetensors".to_string());
    b.format = Some("safetensors".to_string());
    b.size = Some(1234);
    assert!(valid_announce(&b));
    let meta = announce_meta(&b).unwrap();
    assert_eq!(meta.filename.as_deref(), Some("model.safetensors"));
    assert_eq!(meta.format.as_deref(), Some("safetensors"));
    assert_eq!(meta.size, Some(1234));
}

#[test]
fn rejects_malformed_metadata() {
    // Empty strings, oversized values, and control characters are refused;
    // fully absent metadata stays valid (pre-metadata clients).
    let mut b = body(&"a".repeat(64), "node-1", "{}");
    b.filename = Some(String::new());
    assert!(!valid_announce(&b));

    b.filename = Some("f".repeat(MAX_FILENAME_LEN + 1));
    assert!(!valid_announce(&b));

    b.filename = Some("evil\nname.gguf".to_string());
    assert!(!valid_announce(&b));

    b.filename = None;
    b.format = Some("f".repeat(MAX_FORMAT_LEN + 1));
    assert!(!valid_announce(&b));

    b.format = None;
    assert!(valid_announce(&b));
    assert!(announce_meta(&b).is_none());

    // Size alone is enough to carry metadata.
    b.size = Some(7);
    assert!(valid_announce(&b));
    assert!(announce_meta(&b).is_some());
}

#[test]
fn peers_query_key_validation() {
    // Mirrors the content_key check in handle_peers: only 64 lowercase hex accepted.
    let valid_key = "a".repeat(64);
    assert_eq!(valid_key.len(), 64);
    assert!(valid_key.bytes().all(|b| b.is_ascii_hexdigit()));
    assert!(valid_query_key(&valid_key));

    let short = "a".repeat(63);
    assert!(short.len() != 64 || !short.bytes().all(|b| b.is_ascii_hexdigit()));
    assert!(!valid_query_key(&short));

    let non_hex = "z".repeat(64);
    assert!(!non_hex.bytes().all(|b| b.is_ascii_hexdigit()));
    assert!(!valid_query_key(&non_hex));

    let upper = "A".repeat(64);
    assert!(!valid_query_key(&upper));
    assert!(!valid_query_key(&format!("{}F", "a".repeat(63))));
    let store = PeerStore::new(60, 9);
    let reply = handle_peers(&store, &PeersQuery { content_key: upper });
    assert!(matches!(reply, Reply::InvalidContentKey));
    let reply = handle_peers(
        &store,
        &PeersQuery {
            content_key: valid_key,
        },
    );
    assert!(matches!(reply, Reply::Providers(peers) if peers.is_empty()));
}

#[test]
fn index_is_the_page_of_the_registry() {
    let mut store = PeerStore::new(60, 100);
    for (digit, name, format) in [("a", "One.gguf", "gguf"), ("b", "two.bin", "bin")] {
        let mut b = body(&digit.repeat(64), "n", "{}");
        b.filename = Some(name.to_string());
        b.format = Some(format.to_string());
        assert!(matches!(handle_announce(&mut store, None, b), Reply::Done));
    }
    let b = body(&"c".repeat(64), "n", "{}");
    assert!(matches!(handle_announce(&mut store, None, b), Reply::Done));
    let index = |format: Option<&str>, q: Option<&str>, limit: Option<usize>| {
        let query = ContentsQuery {
            format: format.map(|f| f.to_string()),
            q: q.map(|t| t.to_string()),
            limit,
        };
        handle_index(&store, &query).unwrap()
    };
    let all = index(None, None, None);
    assert!(all.contains("One.gguf") && all.contains("two.bin") && all.contains("(unnamed)"));
    assert!(all.contains("<footer>3 listed"));
    // A form that was left empty asks for everything.
    assert_eq!(index(Some(""), Some(""), None), all);
    let some = index(Some("GGUF"), Some("one"), None);
    assert!(some.contains("<footer>1 listed"));
    assert!(some.contains("<option value=\"gguf\" selected>GGUF</option>"));
    assert!(some.contains("<option value=\"bin\">BIN</option>"));
    assert!(index(None, None, Some(2)).contains("<footer>2 listed"));

    // A key that no announce lets in, of which no 16 bytes can be cut off, is in the
    // way only where it would be listed.
    let mut odd = PeerStore::new(60, 100);
    odd.announce(format!("a{}", "é".repeat(9)), "n".into(), "{}".into(), None);
    for node in ["n", "m"] {
        let mut b = body(&"a".repeat(64), node, "{}");
        b.format = Some("gguf".to_string());
        assert!(matches!(handle_announce(&mut odd, None, b), Reply::Done));
    }
    let index = |format: Option<&str>, limit: Option<usize>| {
        let query = ContentsQuery {
            format: format.map(|f| f.to_string()),
            q: None,
            limit,
        };
        handle_index(&odd, &query)
    };
    assert!(index(None, None).is_none());
    assert!(index(Some("gguf"), None).unwrap().contains("<footer>1 listed"));
    assert!(index(None, Some(1)).unwrap().contains("<footer>1 listed"));
    assert!(index(None, Some(0)).unwrap().contains("<footer>0 listed"));
}

#[test]
fn bounds_are_counted_in_bytes() {
    let key = "0123456789abcdefABCDEF0123456789abcdefABCDEF0123456789abcdef0123";
    assert!(valid_content_key(key));
    assert!(!valid_content_key(&"a".repeat(65)));
    assert!(!valid_content_key(&format!("{}é", "a".repeat(62))));
    assert!(valid_announce(&body(key, &"n".repeat(128), "{}")));
    assert!(!valid_announce(&body(key, &"é".repeat(65), "{}")));
    let full = format!("\"{}\"", "x".repeat(8190));
    assert_eq!(full.len(), 8192);
    assert!(valid_announce(&body(key, "n", &full)));

    let mut b = body(key, "n", "{}");
    b.filename = Some("f".repeat(512));
    b.format = Some("é".repeat(16));
    assert!(valid_meta(&b));
    b.format = Some("é".repeat(17));
    assert!(!valid_meta(&b));
    b.format = Some("a\u{7f}".to_string());
    assert!(!valid_meta(&b));
    b.format = Some("a\u{9f}".to_string());
    assert!(!valid_meta(&b));
    b.format = Some("a\u{a0}".to_string());
    assert!(valid_meta(&b));
}

#[test]
fn announce_needs_json() {
    let b = body(&"a".repeat(64), "n", "not json");
    assert!(valid_announce_given(&b, true));
    assert!(!valid_announce_given(&b, false));
    assert!(!valid_announce_given(&body("a", "n", "{}"), true));
}

#[test]
fn announces_are_limited_then_validated_then_recorded() {
    let mut store = PeerStore::new(60, 2);
    let key = "a".repeat(64);
    let client = || Some(ClientAddr::V4(1));
    let reply = handle_announce(&mut store, client(), body("short", "n", "{}"));
    assert!(matches!(reply, Reply::InvalidRequest));
    assert_eq!(reply.status(), 400);
    assert_eq!(reply.error(), Some("invalid request"));
    assert!(store.list_contents(None, None, 9).is_empty());

    let reply = handle_announce(&mut store, client(), body(&key, "n", "{}"));
    assert!(matches!(reply, Reply::Done));
    assert_eq!(reply.status(), 200);
    assert_eq!(reply.error(), None);

    // A refused announce counts, and the third one is beyond the limit.
    let reply = handle_announce(&mut store, client(), body(&key, "m", "{}"));
    assert!(matches!(reply, Reply::RateLimited));
    assert_eq!(reply.status(), 429);
    assert_eq!(reply.error(), Some("rate limited"));
    assert_eq!(store.get_peers(&key).len(), 1);

    // A client without an address is counted as the local one.
    let reply = handle_announce_at(&mut store, None, body(&key, "m", "{}"), true, 0, 0);
    assert!(matches!(reply, Reply::Done));
    assert!(store.may_announce_at(ClientAddr::V4(0x7F00_0001), 0));
    assert!(store.check_rate_limit_at(ClientAddr::V4(0x7F00_0001), 0));
    assert!(!store.may_announce_at(ClientAddr::V4(0x7F00_0001), 0));
}

#[test]
fn peers_are_told_by_key() {
    let mut store = PeerStore::new(60, 9);
    let key = "b".repeat(64);
    handle_announce_at(&mut store, None, body(&key, "n", "{}"), true, 0, 100);
    let query = PeersQuery {
        content_key: key.clone(),
    };
    match handle_peers_at(&store, &query, 160) {
        Reply::Providers(peers) => {
            assert_eq!(peers.len(), 1);
            assert_eq!(peers[0].node_id, "n");
            assert_eq!(peers[0].last_seen, 100);
        }
        _ => panic!("the key is valid"),
    }
    match handle_peers_at(&store, &query, 161) {
        Reply::Providers(peers) => assert!(peers.is_empty()),
        _ => panic!("the key is valid"),
    }
    match handle_peers(&store, &query) {
        Reply::Providers(peers) => assert!(peers.is_empty()),
        _ => panic!("the key is valid"),
    }
    let reply = handle_peers(
        &store,
        &PeersQuery {
            content_key: "b".to_string(),
        },
    );
    assert!(matches!(reply, Reply::InvalidContentKey));
    assert_eq!(reply.status(), 400);
    assert_eq!(reply.error(), Some("invalid content_key"));
}

#[test]
fn leave_is_always_done() {
    let mut store = PeerStore::new(60, 9);
    let key = "b".repeat(64);
    handle_announce_at(&mut store, None, body(&key, "n", "{}"), true, 0, 100);
    let leave = LeaveBody {
        content_key: key.clone(),
        node_id: "n".to_string(),
    };
    assert!(matches!(handle_leave(&mut store, &leave), Reply::Done));
    assert!(store.get_peers_at(&key, 100).is_empty());
    assert!(matches!(handle_leave(&mut store, &leave), Reply::Done));
}

#[test]
fn contents_are_listed_by_pages() {
    assert_eq!(contents_limit(None), 100);
    assert_eq!(contents_limit(Some(7)), 7);
    assert_eq!(contents_limit(Some(500)), 500);
    assert_eq!(contents_limit(Some(501)), 500);
    assert_eq!(contents_limit(Some(0)), 0);

    let mut store = PeerStore::new(60, 1000);
    for i in 0..120 {
        let mut b = body(&format!("{i:064x}"), "n", "{}");
        b.format = Some(if i % 2 == 0 { "gguf" } else { "bin" }.to_string());
        assert!(matches!(handle_announce(&mut store, None, b), Reply::Done));
    }
    let count = |format: Option<&str>, limit: Option<usize>| {
        let query = ContentsQuery {
            format: format.map(|f| f.to_string()),
            q: None,
            limit,
        };
        match handle_contents(&store, &query) {
            Reply::Contents(rows) => rows.len(),
            _ => panic!("a listing"),
        }
    };
    assert_eq!(count(None, None), 100);
    assert_eq!(count(None, Some(usize::MAX)), 120);
    assert_eq!(count(Some("GGUF"), None), 60);
    assert_eq!(count(Some("pt"), None), 0);
}

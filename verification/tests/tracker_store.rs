use dragonfly_gguf::tracker::store::{ClientAddr, ContentMeta, PeerStore};

fn meta(filename: &str, format: &str, size: u64) -> ContentMeta {
    ContentMeta {
        filename: Some(filename.to_string()),
        format: Some(format.to_string()),
        size: Some(size),
    }
}

#[test]
fn announce_stores_metadata_and_lists_contents() {
    let mut store = PeerStore::new(1800, 100);
    store.announce(
        "a".repeat(64),
        "node-1".into(),
        "{}".into(),
        Some(meta("model.safetensors", "safetensors", 42)),
    );
    store.announce("b".repeat(64), "node-2".into(), "{}".into(), None);

    let all = store.list_contents(None, None, 100);
    assert_eq!(all.len(), 2);
    // Metadata-less keys still appear, with null fields.
    let bare = all
        .iter()
        .find(|c| c.content_key == "b".repeat(64))
        .unwrap();
    assert!(bare.filename.is_none() && bare.format.is_none() && bare.size.is_none());
    let described = all
        .iter()
        .find(|c| c.content_key == "a".repeat(64))
        .unwrap();
    assert_eq!(described.filename.as_deref(), Some("model.safetensors"));
    assert_eq!(described.size, Some(42));
    assert_eq!(described.providers, 1);
    assert!(described.first_seen > 0 && described.first_seen <= described.last_seen);
}

#[test]
fn list_contents_filters_by_format_and_query() {
    let mut store = PeerStore::new(1800, 100);
    store.announce(
        "a".repeat(64),
        "n1".into(),
        "{}".into(),
        Some(meta("Qwen2-0.5B-Q4_K_M.gguf", "gguf", 1)),
    );
    store.announce(
        "b".repeat(64),
        "n2".into(),
        "{}".into(),
        Some(meta("model.safetensors", "safetensors", 2)),
    );

    // Format filter is case-insensitive exact match.
    let ggufs = store.list_contents(Some("GGUF"), None, 100);
    assert_eq!(ggufs.len(), 1);
    assert_eq!(ggufs[0].format.as_deref(), Some("gguf"));

    // Query is a case-insensitive filename substring; keys without a
    // filename never match a query.
    let hits = store.list_contents(None, Some("qwen2"), 100);
    assert_eq!(hits.len(), 1);
    assert_eq!(hits[0].filename.as_deref(), Some("Qwen2-0.5B-Q4_K_M.gguf"));
    assert!(store.list_contents(None, Some("llama"), 100).is_empty());
}

#[test]
fn list_contents_sorts_by_providers_and_respects_limit() {
    let mut store = PeerStore::new(1800, 100);
    store.announce("a".repeat(64), "n1".into(), "{}".into(), None);
    store.announce("b".repeat(64), "n2".into(), "{}".into(), None);
    store.announce("b".repeat(64), "n3".into(), "{}".into(), None);

    let all = store.list_contents(None, None, 100);
    assert_eq!(all[0].content_key, "b".repeat(64));
    assert_eq!(all[0].providers, 2);

    assert_eq!(store.list_contents(None, None, 1).len(), 1);
}

#[test]
fn last_write_wins_and_eviction_drops_metadata() {
    // The only provider was last seen far past the ttl.
    let mut store = PeerStore::new(60, 100);
    store.announce_at(
        "a".repeat(64),
        "n1".into(),
        "{}".into(),
        Some(meta("old.bin", "bin", 1)),
        1,
    );
    store.announce_at(
        "a".repeat(64),
        "n1".into(),
        "{}".into(),
        Some(meta("new.bin", "bin", 2)),
        1,
    );
    assert_eq!(store.list_contents_at(None, None, 100, 1)[0].size, Some(2));

    // The listing hides the key and eviction drops both the peers and the
    // metadata.
    assert!(store.list_contents(None, None, 100).is_empty());
    store.evict_expired();
    assert!(store.list_contents_at(None, None, 100, 1).is_empty());
    assert!(store.get_peers_at(&"a".repeat(64), 1).is_empty());
    store.announce_at("a".repeat(64), "n2".into(), "{}".into(), None, 5);
    let again = store.list_contents_at(None, None, 100, 5);
    assert_eq!(again.len(), 1);
    assert_eq!(again[0].size, None);
    assert_eq!(again[0].first_seen, 5);
}

#[test]
fn announce_then_get_within_the_ttl() {
    let mut store = PeerStore::new(60, 100);
    store.announce_at("k".into(), "n1".into(), "{\"a\":1}".into(), None, 1000);
    store.announce_at("k".into(), "n2".into(), "{}".into(), None, 1010);
    let now = store.get_peers_at("k", 1060);
    assert_eq!(now.len(), 2);
    assert_eq!(now[0].node_id, "n1");
    assert_eq!(now[0].addr_info, "{\"a\":1}");
    assert_eq!(now[0].last_seen, 1000);
    let later = store.get_peers_at("k", 1061);
    assert_eq!(later.len(), 1);
    assert_eq!(later[0].node_id, "n2");
    assert!(store.get_peers_at("other", 1000).is_empty());

    // A node that announces again is refreshed in place.
    store.announce_at("k".into(), "n1".into(), "{}".into(), None, 1100);
    let again = store.get_peers_at("k", 1070);
    assert_eq!(again.len(), 2);
    assert_eq!(again[0].addr_info, "{}");
    assert_eq!(again[0].last_seen, 1100);
}

#[test]
fn leaving_removes_one_node_of_one_key() {
    let mut store = PeerStore::new(60, 100);
    store.announce_at("k".into(), "n1".into(), "{}".into(), None, 1000);
    store.announce_at("k".into(), "n2".into(), "{}".into(), None, 1000);
    store.announce_at("l".into(), "n1".into(), "{}".into(), None, 1000);
    store.remove_peer("k", "n1");
    store.remove_peer("unknown", "n1");
    let peers = store.get_peers_at("k", 1000);
    assert_eq!(peers.len(), 1);
    assert_eq!(peers[0].node_id, "n2");
    assert_eq!(store.get_peers_at("l", 1000).len(), 1);
    // A key without providers is not listed, and starts anew when it comes back.
    store.remove_peer("k", "n2");
    assert_eq!(store.list_contents_at(None, None, 9, 1000).len(), 1);
    store.announce_at("k".into(), "n3".into(), "{}".into(), None, 1020);
    let rows = store.list_contents_at(None, None, 9, 1020);
    assert_eq!(rows[0].content_key, "k");
    assert_eq!(rows[0].first_seen, 1020);
    assert_eq!(rows[0].last_seen, 1020);
}

#[test]
fn first_seen_is_reset_when_a_key_comes_back() {
    // Whether or not an eviction came in between.
    for evict in [false, true] {
        let mut store = PeerStore::new(60, 100);
        store.announce_at("k".into(), "n1".into(), "{}".into(), None, 1000);
        // Announced again in time, by this node or another, it keeps its first.
        store.announce_at("k".into(), "n1".into(), "{}".into(), None, 1060);
        store.announce_at("k".into(), "n2".into(), "{}".into(), None, 1120);
        assert_eq!(store.list_contents_at(None, None, 9, 1120)[0].first_seen, 1000);
        // One second too late, it starts anew.
        if evict {
            store.evict_expired_at(1181);
        }
        store.announce_at("k".into(), "n1".into(), "{}".into(), None, 1181);
        let rows = store.list_contents_at(None, None, 9, 1181);
        assert_eq!(rows.len(), 1);
        assert_eq!(rows[0].first_seen, 1181);
        assert_eq!(rows[0].providers, 1);
    }
}

#[test]
fn listing_breaks_ties_by_key() {
    let mut store = PeerStore::new(1000, 100);
    for key in ["c", "a", "d", "b"] {
        store.announce_at(key.into(), "n".into(), "{}".into(), None, 10);
    }
    let keys = |limit: usize| -> Vec<String> {
        store
            .list_contents_at(None, None, limit, 10)
            .into_iter()
            .map(|r| r.content_key)
            .collect()
    };
    assert_eq!(keys(9), vec!["a", "b", "c", "d"]);
    // A limit cuts the full listing.
    for limit in 0..5 {
        assert_eq!(keys(limit), keys(9)[..limit].to_vec());
    }
}

#[test]
fn store_names_its_keys() {
    let mut store = PeerStore::new(60, 100);
    assert!(store.known_keys().is_empty());
    for key in ["c", "a", "c"] {
        store.announce_at(key.into(), "n".into(), "{}".into(), None, 10);
    }
    let mut keys = store.known_keys();
    keys.sort();
    assert_eq!(keys, vec!["a", "c"]);
    store.evict_expired_at(71);
    assert!(store.known_keys().is_empty());
}

#[test]
fn eviction_keeps_what_is_good() {
    let mut store = PeerStore::new(60, 100);
    store.announce_at("k".into(), "n1".into(), "{}".into(), Some(meta("a", "b", 1)), 1000);
    store.announce_at("k".into(), "n2".into(), "{}".into(), None, 1050);
    store.evict_expired_at(1061);
    let rows = store.list_contents_at(None, None, 9, 1000);
    assert_eq!(rows.len(), 1);
    assert_eq!(rows[0].providers, 1);
    assert_eq!(rows[0].filename.as_deref(), Some("a"));
    assert_eq!(rows[0].first_seen, 1000);
    store.evict_expired_at(1061);
    assert_eq!(store.get_peers_at("k", 1061).len(), 1);
}

#[test]
fn listing_ranks_by_providers_then_by_last_seen() {
    let mut store = PeerStore::new(1000, 100);
    for (key, node, at) in [
        ("a", "n1", 10),
        ("b", "n1", 30),
        ("c", "n1", 20),
        ("d", "n1", 1),
        ("d", "n2", 2),
        ("e", "n1", 40),
    ] {
        store.announce_at(key.into(), node.into(), "{}".into(), None, at);
    }
    let keys = |limit: usize| -> Vec<String> {
        store
            .list_contents_at(None, None, limit, 100)
            .into_iter()
            .map(|r| r.content_key)
            .collect()
    };
    assert_eq!(keys(9), vec!["d", "e", "b", "c", "a"]);
    assert_eq!(keys(2), vec!["d", "e"]);
    assert!(keys(0).is_empty());
}

#[test]
fn queries_are_lowered_by_unicode() {
    let mut store = PeerStore::new(60, 100);
    store.announce("k".into(), "n".into(), "{}".into(), Some(meta("MODÈLE.gguf", "GGUF", 1)));
    assert_eq!(store.list_contents(None, Some("modèle"), 9).len(), 1);
    assert_eq!(store.list_contents(None, Some("ÈLE"), 9).len(), 1);
    assert_eq!(store.list_contents(Some("gGuF"), Some(""), 9).len(), 1);
    assert_eq!(store.list_contents(Some("ggu"), None, 9).len(), 0);
}

#[test]
fn rate_limit_counts_per_client_and_minute() {
    let mut store = PeerStore::new(60, 2);
    let a = || ClientAddr::V4(0x7F00_0001);
    let b = || ClientAddr::V6(0x7F00_0001);
    let minute: u128 = 60_000_000_000;
    assert!(store.check_rate_limit_at(a(), 0));
    assert!(store.check_rate_limit_at(a(), 5));
    assert!(!store.check_rate_limit_at(a(), 10));
    assert!(!store.check_rate_limit_at(a(), minute - 1));
    // Another client is counted apart, and a new minute starts anew.
    assert!(store.check_rate_limit_at(b(), 10));
    assert!(store.may_announce_at(b(), 10));
    assert!(store.check_rate_limit_at(a(), minute));
    assert!(store.check_rate_limit_at(a(), minute + 1));
    assert!(!store.check_rate_limit_at(a(), minute + 2));

    let mut closed = PeerStore::new(60, 0);
    assert!(!closed.check_rate_limit(a()));
    let mut open = PeerStore::new(60, 1);
    assert!(open.check_rate_limit(a()));
    assert!(!open.check_rate_limit(a()));
}

use dragonfly_gguf::p2p::downloader::{
    after_attempt, dial, dial_by, providers_found, start, Attempt, Dial, DownloadStep,
};
use dragonfly_gguf::p2p::node::secret_key_bytes;
use dragonfly_gguf::p2p::tracker::{
    announce_outcome, peers_outcome, FileMeta, PeerEntry, TrackerClient,
};
use dragonfly_gguf::p2p::wire::{
    after_copy, check_received, check_sent, check_status, file_len, key_len, reply_head, request,
    requested_key, CopyEnd, FetchError, ServeError, ALPN,
};
use dragonfly_gguf::tracker::routes::{announce_meta, valid_announce};

#[test]
fn request_is_length_and_key() {
    assert_eq!(request("abc"), vec![3, 0, 0, 0, b'a', b'b', b'c']);
    assert_eq!(request(""), vec![0, 0, 0, 0]);
    assert_eq!(request("é"), vec![2, 0, 0, 0, 0xc3, 0xa9]);
    let long = request(&"k".repeat(258));
    assert_eq!(&long[..4], &[2, 1, 0, 0]);
    assert_eq!(ALPN, "/dragonfly-gguf/1");
}

#[test]
fn request_is_understood() {
    for key in ["", "a", "ключ", &"a".repeat(64), &"b".repeat(256)] {
        let bytes = request(key);
        let head: [u8; 4] = [bytes[0], bytes[1], bytes[2], bytes[3]];
        let rest = bytes[4..].to_vec();
        assert_eq!(key_len(head).ok(), Some(rest.len()));
        assert_eq!(requested_key(rest).ok().as_deref(), Some(key));
    }
}

#[test]
fn bad_keys_are_refused() {
    assert_eq!(key_len([0, 1, 0, 0]).ok(), Some(256));
    match key_len([1, 1, 0, 0]) {
        Err(e) => assert_eq!(e.message().as_deref(), Some("key too long")),
        Ok(_) => panic!("257 bytes are too long"),
    }
    assert!(matches!(
        key_len([0, 0, 0, 255]),
        Err(ServeError::KeyTooLong)
    ));
    match requested_key(vec![b'a', 0xff]) {
        Err(e) => {
            assert!(matches!(e, ServeError::KeyNotText(_)));
            assert!(e.message().is_none());
        }
        Ok(_) => panic!("these bytes are no text"),
    }
}

#[test]
fn reply_is_understood() {
    assert_eq!(reply_head(None), vec![0]);
    assert_eq!(reply_head(Some(258)), vec![1, 2, 1, 0, 0, 0, 0, 0, 0]);
    for n in [0, 1, 255, 256, 1 << 40, u64::MAX] {
        let head = reply_head(Some(n));
        assert!(check_status(head[0]).is_ok());
        let mut bytes = [0u8; 8];
        bytes.copy_from_slice(&head[1..]);
        assert_eq!(file_len(bytes), n);
    }
    match check_status(0) {
        Err(e) => assert_eq!(e.message(), "peer does not have this content"),
        Ok(_) => panic!("the peer has nothing"),
    }
    // Any other status is taken for a file.
    assert!(check_status(2).is_ok());
}

#[test]
fn transfers_are_of_the_announced_length() {
    assert!(check_sent(5, 5).is_ok());
    match check_sent(5, 4) {
        Err(e) => assert_eq!(
            e.message().as_deref(),
            Some("file changed during transfer: expected 5 bytes, sent 4")
        ),
        Ok(_) => panic!("one byte is missing"),
    }
    assert!(check_received(5, 5).is_ok());
    match check_received(5, 6) {
        Err(e) => {
            assert!(matches!(
                e,
                FetchError::SizeMismatch {
                    expected: 5,
                    got: 6
                }
            ));
            assert_eq!(
                e.message(),
                "P2P transfer size mismatch: expected 5 bytes, got 6"
            );
        }
        Ok(_) => panic!("one byte too many"),
    }
}

#[test]
fn truncated_file_does_not_stay() {
    assert!(matches!(after_copy(5, Some(5)), CopyEnd::Keep));
    assert!(matches!(after_copy(0, Some(0)), CopyEnd::Keep));
    for got in [0, 4, 6, u64::MAX] {
        match after_copy(5, Some(got)) {
            CopyEnd::RemoveAndFail(Some(e)) => assert_eq!(
                e.message(),
                format!("P2P transfer size mismatch: expected 5 bytes, got {got}")
            ),
            _ => panic!("the file is not whole"),
        }
    }
    // The stream broke off, however many bytes came before.
    assert!(matches!(after_copy(5, None), CopyEnd::RemoveAndFail(None)));
    assert!(matches!(after_copy(0, None), CopyEnd::RemoveAndFail(None)));
}

fn peer(node_id: &str, addr_info: &str) -> PeerEntry {
    PeerEntry {
        node_id: node_id.to_string(),
        addr_info: addr_info.to_string(),
        last_seen: 0,
    }
}

#[test]
fn peers_are_dialled_by_address_where_they_have_one() {
    let id = iroh::SecretKey::from_bytes(&[7; 32]).public();
    let addr = serde_json::to_string(&iroh::EndpointAddr::new(id)).unwrap();
    match dial(&peer(&id.to_string(), &addr)) {
        Ok(Dial::Addr(a)) => assert_eq!(a.id, id),
        _ => panic!("there is an address"),
    }
    match dial(&peer(&id.to_string(), "{}")) {
        Ok(Dial::Id(i)) => assert_eq!(i, id),
        _ => panic!("there is no address"),
    }
    // Without an identity a peer is not dialled, whatever its address.
    assert!(dial(&peer("nobody", &addr)).is_err());
    assert!(matches!(dial_by(Ok(id), None), Ok(Dial::Id(_))));
}

#[test]
fn peers_are_tried_until_one_delivers() {
    assert!(matches!(start(0), DownloadStep::GiveUp(e) if e == "no providers"));
    assert!(matches!(start(2), DownloadStep::Try(0)));
    assert!(matches!(
        after_attempt(3, 0, Attempt::Failed("x".to_string())),
        DownloadStep::Try(1)
    ));
    assert!(matches!(
        after_attempt(3, 1, Attempt::TimedOut),
        DownloadStep::Try(2)
    ));
    assert!(matches!(
        after_attempt(3, 1, Attempt::Done),
        DownloadStep::Done
    ));
    assert!(
        matches!(after_attempt(3, 2, Attempt::TimedOut), DownloadStep::GiveUp(e) if e == "timeout")
    );
    assert!(
        matches!(after_attempt(1, 0, Attempt::Failed("x".to_string())), DownloadStep::GiveUp(e) if e == "x")
    );
}

#[test]
fn question_for_providers_may_fail() {
    assert_eq!(providers_found(Ok(3)), Ok(3));
    assert_eq!(providers_found(Ok(0)), Err("no P2P providers".to_string()));
    assert_eq!(
        providers_found(Err("tracker returned 500".to_string())),
        Err("tracker query failed: tracker returned 500".to_string())
    );
}

#[test]
fn key_files_have_32_bytes() {
    let bytes: Vec<u8> = (0..32).collect();
    let key = secret_key_bytes(&bytes).unwrap();
    assert_eq!(key.to_vec(), bytes);
    for len in [0, 31, 33, 64] {
        assert_eq!(
            secret_key_bytes(&vec![1; len]),
            Err("keypair file must be exactly 32 bytes".to_string())
        );
    }
}

#[test]
fn requests_go_below_the_tracker_url() {
    let client = TrackerClient::new("http://t:8080/a//".to_string());
    assert_eq!(
        client.get_peers("abc"),
        "http://t:8080/a/peers?content_key=abc"
    );
    let (url, body) = client.announce("k", "n", "{}");
    assert_eq!(url, "http://t:8080/a/announce");
    assert_eq!(body.content_key, "k");
    assert_eq!(body.node_id, "n");
    assert_eq!(body.addr_info, "{}");
    assert!(announce_meta(&body).is_none());
    let (url, body) = client.leave("k", "n");
    assert_eq!(url, "http://t:8080/a/leave");
    assert_eq!(body.content_key, "k");
    assert_eq!(body.node_id, "n");
    assert_eq!(
        TrackerClient::new("///".to_string()).get_peers(""),
        "/peers?content_key="
    );
}

#[test]
fn description_arrives_at_the_tracker() {
    let client = TrackerClient::new("http://t".to_string());
    let meta = FileMeta::from_path(Some("Model.GGUF"), Some("GGUF"), Some(5));
    let (_, body) = client.announce_with_meta(&"a".repeat(64), "n", "{}", Some(&meta));
    assert!(valid_announce(&body));
    let told = announce_meta(&body).unwrap();
    assert_eq!(told.filename.as_deref(), Some("Model.GGUF"));
    assert_eq!(told.format.as_deref(), Some("gguf"));
    assert_eq!(told.size, Some(5));

    let nothing = FileMeta::from_path(None, None, None);
    let (_, body) = client.announce_with_meta("k", "n", "{}", Some(&nothing));
    assert!(announce_meta(&body).is_none());
    let empty = FileMeta::default();
    assert!(empty.filename.is_none() && empty.format.is_none() && empty.size.is_none());
}

#[test]
fn replies_count_by_their_status() {
    assert!(peers_outcome(200, "200 OK").is_ok());
    assert!(announce_outcome(299, "").is_ok());
    assert_eq!(
        peers_outcome(404, "404 Not Found"),
        Err("tracker returned 404 Not Found".to_string())
    );
    assert_eq!(
        announce_outcome(429, "429 Too Many Requests"),
        Err("announce failed: 429 Too Many Requests".to_string())
    );
    assert!(peers_outcome(199, "").is_err());
    assert!(peers_outcome(300, "").is_err());
}

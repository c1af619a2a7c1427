use dragonfly_gguf::p2p::registry::{
    default_registry_dir, is_manifest_name, now_unix, register_seed, register_seed_at,
    try_register_seed_at, SeedManifest,
};
use dragonfly_gguf::p2p::seeder::{Contact, SeedAction, SeedTable, REANNOUNCE_NANOS};
use dragonfly_gguf::paths::Base;
use std::path::PathBuf;

#[test]
fn test_register_seed_writes_manifest() {
    let key = "b".repeat(64);
    let file = PathBuf::from("/models/model.gguf");
    let seed = register_seed("http://tracker.example:8080", &key, file.clone(), 3600, 0).unwrap();
    let m = &seed.manifest;
    assert_eq!(m.content_key, key);
    assert_eq!(m.file_path, file);
    assert_eq!(m.tracker_url, "http://tracker.example:8080");
    assert!(m.expiry_unix > now_unix(), "expiry should be in the future");
    assert!(!m.is_expired());

    // What is registered is found, and what is being written is not.
    assert_eq!(seed.file_name, format!("{key}.json"));
    assert_eq!(seed.temp_name, format!("{key}.json.tmp"));
    assert!(is_manifest_name(&seed.file_name.into_bytes()));
    assert!(!is_manifest_name(&seed.temp_name.into_bytes()));
}

#[test]
fn test_expired_manifest_detected() {
    let m = SeedManifest {
        content_key: "c".repeat(64),
        file_path: PathBuf::from("/tmp/nope.gguf"),
        tracker_url: "http://t".to_string(),
        expiry_unix: 1, // 1970
    };
    assert!(m.is_expired());

    let never = SeedManifest {
        expiry_unix: 0,
        ..m.clone()
    };
    assert!(!never.is_expired(), "expiry_unix 0 means never expires");
}

#[test]
fn seeds_last_as_long_as_asked() {
    let at = |secs: u64, nanos: u32| {
        register_seed_at(1000, "t", "k", PathBuf::from("f"), secs, nanos)
            .manifest
            .expiry_unix
    };
    assert_eq!(at(0, 0), 0);
    assert_eq!(at(60, 0), 1060);
    assert_eq!(at(0, 1), 1000);
    let tried = |now: u64, secs: u64, nanos: u32| {
        try_register_seed_at(now, "t", "k", PathBuf::from("f"), secs, nanos)
            .map(|seed| seed.manifest.expiry_unix)
    };
    assert_eq!(tried(1000, 60, 0), Some(1060));
    assert_eq!(tried(1000, u64::MAX - 1000, 0), Some(u64::MAX));
    assert_eq!(tried(1000, u64::MAX - 999, 0), None);
    assert_eq!(tried(u64::MAX, 0, 0), Some(0));
    assert_eq!(tried(u64::MAX, 0, 1), Some(u64::MAX));
    assert_eq!(tried(u64::MAX, 1, 0), None);
    assert!(register_seed("t", "k", PathBuf::from("f"), u64::MAX, 0).is_none());
    assert!(register_seed("t", "k", PathBuf::from("f"), 0, 0).is_some());

    let mut m = manifest("k", "f");
    m.expiry_unix = 1060;
    assert!(!m.expired_at(1059));
    assert!(m.expired_at(1060));
    m.expiry_unix = 0;
    assert!(!m.expired_at(u64::MAX));
}

#[test]
fn manifests_are_told_by_their_extension() {
    let is = |name: &str| is_manifest_name(&name.as_bytes().to_vec());
    assert!(is("a.json"));
    assert!(is("a.b.json"));
    assert!(is("..json"));
    assert!(!is(".json"));
    assert!(!is("json"));
    assert!(!is("a.JSON"));
    assert!(!is("a.json.tmp"));
    assert!(!is("ajson"));
    assert!(!is(""));
    assert!(is_manifest_name(&vec![0xff, b'.', b'j', b's', b'o', b'n']));
    for name in ["a.json", "..json", ".json", "a.json5", "x.tar.json", "json"] {
        let path = PathBuf::from(name);
        let by_path = path.extension().and_then(|e| e.to_str()) == Some("json");
        assert_eq!(is(name), by_path);
    }
}

#[test]
fn registry_is_below_the_data_directory() {
    let names = |xdg: Option<&str>, home: Option<&str>| {
        let place = default_registry_dir(xdg.map(PathBuf::from), home.map(PathBuf::from));
        let base = match place.base {
            Base::Dir(d) => d,
            Base::Tmp => PathBuf::from("/tmp"),
            Base::MachineTemp => panic!("not below the machine's own"),
        };
        place.names.iter().fold(base, |path, name| path.join(name))
    };
    assert_eq!(
        names(Some("/x"), Some("/h")),
        PathBuf::from("/x/dragonfly/gguf-seeds")
    );
    assert_eq!(
        names(None, Some("/h")),
        PathBuf::from("/h/.local/share/dragonfly/gguf-seeds")
    );
    assert_eq!(
        names(None, None),
        PathBuf::from("/tmp/dragonfly/gguf-seeds")
    );
}

fn manifest(key: &str, file: &str) -> SeedManifest {
    SeedManifest {
        content_key: key.to_string(),
        file_path: PathBuf::from(file),
        tracker_url: format!("http://{key}"),
        expiry_unix: 2000,
    }
}

fn pairs(mut contacts: Vec<Contact>) -> Vec<(String, String)> {
    contacts.sort_by(|a, b| a.key.cmp(&b.key));
    contacts
        .into_iter()
        .map(|c| (c.key, c.tracker_url))
        .collect()
}

#[test]
fn seed_goes_through_its_life() {
    let mut table = SeedTable::new();
    assert!(table.lookup("a").is_none());

    // A new seed is served at once and announced until the tracker takes it.
    match table.visit_at(manifest("a", "/m"), true, 1000, 0) {
        SeedAction::Announce(c) => {
            assert_eq!(c.key, "a");
            assert_eq!(c.tracker_url, "http://a");
        }
        _ => panic!("a new seed is announced"),
    }
    assert_eq!(table.lookup("a"), Some(PathBuf::from("/m")));
    table.announced_at(false, 5);
    assert!(pairs(table.finish()).is_empty());
    assert!(matches!(
        table.visit_at(manifest("a", "/m"), true, 1000, 10),
        SeedAction::Announce(_)
    ));
    table.announced_at(true, 20);
    assert!(pairs(table.finish()).is_empty());

    // It is announced again five minutes after the tracker took it.
    assert!(matches!(
        table.visit_at(manifest("a", "/n"), true, 1000, 20 + REANNOUNCE_NANOS - 1),
        SeedAction::Keep
    ));
    assert_eq!(table.lookup("a"), Some(PathBuf::from("/n")));
    assert!(matches!(
        table.visit_at(manifest("a", "/n"), true, 1000, 20 + REANNOUNCE_NANOS),
        SeedAction::Announce(_)
    ));
    table.announced_at(true, 20 + REANNOUNCE_NANOS);
    assert!(pairs(table.finish()).is_empty());

    // It is dropped when it expires.
    match table.visit_at(manifest("a", "/n"), true, 2000, 30 + REANNOUNCE_NANOS) {
        SeedAction::Drop(Some(c)) => assert_eq!(c.tracker_url, "http://a"),
        _ => panic!("the tracker knows of it"),
    }
    assert!(table.lookup("a").is_none());
    assert!(matches!(
        table.visit_at(manifest("a", "/n"), true, 2000, 0),
        SeedAction::Drop(None)
    ));
    assert!(pairs(table.finish()).is_empty());
    assert!(pairs(table.shut_down()).is_empty());
}

#[test]
fn seed_without_its_file_is_dropped() {
    let mut table = SeedTable::new();
    table.visit_at(manifest("a", "/m"), true, 0, 0);
    table.announced_at(true, 0);
    assert!(matches!(
        table.visit_at(manifest("a", "/m"), false, 0, 0),
        SeedAction::Drop(Some(_))
    ));
    assert!(table.lookup("a").is_none());
}

#[test]
fn seed_without_its_manifest_is_left() {
    let mut table = SeedTable::new();
    for key in ["a", "b", "c"] {
        table.visit_at(manifest(key, key), true, 0, 0);
        table.announced_at(true, 0);
    }
    assert!(pairs(table.finish()).is_empty());
    table.visit_at(manifest("b", "b"), true, 0, 1);
    assert_eq!(
        pairs(table.finish()),
        vec![
            ("a".to_string(), "http://a".to_string()),
            ("c".to_string(), "http://c".to_string())
        ]
    );
    assert!(table.lookup("a").is_none());
    assert!(table.lookup("c").is_none());
    assert_eq!(table.lookup("b"), Some(PathBuf::from("b")));
    assert_eq!(
        pairs(table.shut_down()),
        vec![("b".to_string(), "http://b".to_string())]
    );
    assert!(pairs(table.shut_down()).is_empty());
}

#[test]
fn gone_seed_is_not_served_though_no_tracker_took_it() {
    // Expired.
    let mut table = SeedTable::new();
    table.visit_at(manifest("a", "/m"), true, 1000, 0);
    table.announced_at(false, 0);
    assert!(table.finish().is_empty());
    assert!(table.lookup("a").is_some());
    assert!(matches!(
        table.visit_at(manifest("a", "/m"), true, 2000, 1),
        SeedAction::Drop(None)
    ));
    assert!(table.lookup("a").is_none());
    assert!(table.finish().is_empty());

    // Without its file.
    table.visit_at(manifest("a", "/m"), true, 1000, 2);
    table.announced_at(false, 2);
    assert!(matches!(
        table.visit_at(manifest("a", "/m"), false, 1000, 3),
        SeedAction::Drop(None)
    ));
    assert!(table.lookup("a").is_none());
    assert!(table.finish().is_empty());

    // Without its manifest.
    table.visit_at(manifest("a", "/m"), true, 1000, 4);
    table.announced_at(false, 4);
    table.visit_at(manifest("b", "/n"), true, 1000, 4);
    table.announced_at(false, 4);
    assert!(table.finish().is_empty());
    table.visit_at(manifest("b", "/o"), true, 1000, 5);
    table.announced_at(false, 5);
    assert!(table.finish().is_empty());
    assert!(table.lookup("a").is_none());
    assert_eq!(table.lookup("b"), Some(PathBuf::from("/o")));
    // Without any.
    assert!(table.finish().is_empty());
    assert!(table.lookup("b").is_none());
}

#[test]
fn pass_goes_by_the_last_visit_of_a_key() {
    let mut table = SeedTable::new();
    table.visit_at(manifest("a", "/1"), false, 1000, 0);
    table.visit_at(manifest("a", "/2"), true, 1000, 0);
    table.announced_at(true, 0);
    table.visit_at(manifest("b", "/3"), true, 1000, 0);
    table.announced_at(true, 0);
    table.visit_at(manifest("b", "/4"), false, 1000, 0);
    assert!(table.finish().is_empty());
    assert_eq!(table.lookup("a"), Some(PathBuf::from("/2")));
    assert!(table.lookup("b").is_none());
    assert_eq!(
        pairs(table.shut_down()),
        vec![("a".to_string(), "http://a".to_string())]
    );
    // The file is served until the service is gone.
    assert!(table.lookup("a").is_some());
}

#[test]
fn seed_stays_with_the_tracker_that_took_it_first() {
    let mut table = SeedTable::new();
    table.visit_at(manifest("a", "/m"), true, 0, 0);
    table.announced_at(true, 0);
    table.finish();
    let mut moved = manifest("a", "/m");
    moved.tracker_url = "http://other".to_string();
    match table.visit_at(moved, true, 0, REANNOUNCE_NANOS) {
        SeedAction::Announce(c) => assert_eq!(c.tracker_url, "http://other"),
        _ => panic!("it is time to announce"),
    }
    table.announced_at(true, REANNOUNCE_NANOS);
    assert_eq!(
        pairs(table.shut_down()),
        vec![("a".to_string(), "http://a".to_string())]
    );
}

#[test]
fn clocks_are_read() {
    let mut table = SeedTable::new();
    let mut m = manifest("a", "/m");
    m.expiry_unix = 0;
    assert!(matches!(
        table.visit(m.clone(), true),
        SeedAction::Announce(_)
    ));
    table.announced(true);
    assert!(matches!(table.visit(m.clone(), true), SeedAction::Keep));
    m.expiry_unix = 1;
    assert!(matches!(table.visit(m, true), SeedAction::Drop(Some(_))));
    assert!(now_unix() > 1_600_000_000);
}

//! On-disk seed registry: dfget writes manifests, dfdaemon reconciles them.

use std::path::PathBuf;
use vstd::prelude::*;
use vstd::utf8::encode_utf8;

use crate::clock::now_secs;
use crate::paths::{Base, Place};
use crate::text::views;

verus! {

/// A single registered seed, persisted as `<content_key>.json` in the registry.
#[derive(Debug)]
pub struct SeedManifest {
    pub content_key: String,
    pub file_path: PathBuf,
    pub tracker_url: String,
    /// Unix seconds after which the seed should be dropped. 0 = never.
    pub expiry_unix: u64,
}

impl Clone for SeedManifest {
    fn clone(&self) -> (copy: Self)
        ensures
            copy.content_key@ == self.content_key@,
            copy.file_path == self.file_path,
            copy.tracker_url@ == self.tracker_url@,
            copy.expiry_unix == self.expiry_unix,
    {
        SeedManifest {
            content_key: self.content_key.clone(),
            file_path: self.file_path.clone(),
            tracker_url: self.tracker_url.clone(),
            expiry_unix: self.expiry_unix,
        }
    }
}

/// A seed with this expiry is to be dropped at second `now`; zero stands for
/// never.
pub open spec fn is_expired_at(expiry_unix: u64, now: u64) -> bool {
    expiry_unix != 0 && now >= expiry_unix
}

impl SeedManifest {
    /// Whether the seed is to be dropped at second `now`.
    pub fn expired_at(&self, now: u64) -> (yes: bool)
        ensures
            yes == is_expired_at(self.expiry_unix, now),
    {
        self.expiry_unix != 0 && now >= self.expiry_unix
    }

    /// Whether the seed is to be dropped now.
    pub fn is_expired(&self) -> (yes: bool)
        ensures
            exists|now: u64| yes == #[trigger] is_expired_at(self.expiry_unix, now),
            self.expiry_unix == 0 ==> !yes,
    {
        let now = now_unix();
        self.expired_at(now)
    }
}

/// The wall clock in whole seconds since the Unix epoch, zero before it. The
/// value is whatever the machine's clock says.
pub fn now_unix() -> (secs: u64) {
    now_secs()
}

/// Default registry directory shared by the writer (dfget) and reader
/// (dfdaemon): `$XDG_DATA_HOME/dragonfly/gguf-seeds` (falling back to
/// `~/.local/share/...`).
pub fn default_registry_dir(xdg_data_home: Option<PathBuf>, home: Option<PathBuf>) -> (place: Place)
    ensures
        match (xdg_data_home, home) {
            (Some(d), _) => place.is(Base::Dir(d), seq!["dragonfly"@, "gguf-seeds"@]),
            (None, Some(d)) => place.is(
                Base::Dir(d),
                seq![".local"@, "share"@, "dragonfly"@, "gguf-seeds"@],
            ),
            (None, None) => place.is(Base::Tmp, seq!["dragonfly"@, "gguf-seeds"@]),
        },
{
    let mut names: Vec<String> = Vec::new();
    let base = match (xdg_data_home, home) {
        (Some(d), _) => Base::Dir(d),
        (None, Some(d)) => {
            names.push(".local".to_owned());
            names.push("share".to_owned());
            Base::Dir(d)
        },
        (None, None) => Base::Tmp,
    };
    names.push("dragonfly".to_owned());
    names.push("gguf-seeds".to_owned());
    assert(xdg_data_home is Some || home is None ==> views(names@) =~= seq![
        "dragonfly"@,
        "gguf-seeds"@,
    ]);
    assert(xdg_data_home is None && home is Some ==> views(names@) =~= seq![
        ".local"@,
        "share"@,
        "dragonfly"@,
        "gguf-seeds"@,
    ]);
    Place { base, names }
}

/// The second after which a seed is dropped that is registered at `now` for a
/// duration of `secs` seconds and `nanos` nanoseconds; zero, that is never, for no
/// duration.
pub open spec fn seed_expiry(now: u64, secs: u64, nanos: u32) -> int {
    if secs == 0 && nanos == 0 {
        0
    } else {
        now + secs
    }
}

/// How a seed is registered: the manifest is written under the temporary name and
/// then renamed, so that a reader sees the whole of it or nothing.
pub struct Registration {
    pub manifest: SeedManifest,
    pub file_name: String,
    pub temp_name: String,
}

impl Registration {
    /// The registration is that of a seed with these data.
    pub open spec fn is(
        self,
        tracker_url: Seq<char>,
        content_key: Seq<char>,
        file_path: PathBuf,
        expiry: int,
    ) -> bool {
        &&& self.manifest.content_key@ == content_key
        &&& self.manifest.file_path == file_path
        &&& self.manifest.tracker_url@ == tracker_url
        &&& self.manifest.expiry_unix == expiry
        &&& self.file_name@ == content_key + ".json"@
        &&& self.temp_name@ == content_key + ".json.tmp"@
    }
}

/// Register a file to be seeded, as of second `now`.
pub fn register_seed_at(
    now: u64,
    tracker_url: &str,
    content_key: &str,
    file_path: PathBuf,
    secs: u64,
    nanos: u32,
) -> (registration: Registration)
    requires
        seed_expiry(now, secs, nanos) <= u64::MAX,
    ensures
        registration.is(tracker_url@, content_key@, file_path, seed_expiry(now, secs, nanos)),
{
    let expiry_unix: u64 = if secs == 0 && nanos == 0 {
        0
    } else {
        now + secs
    };
    let manifest = SeedManifest {
        content_key: content_key.to_owned(),
        file_path,
        tracker_url: tracker_url.to_owned(),
        expiry_unix,
    };
    let mut file_name = String::new();
    file_name.append(content_key);
    file_name.append(".json");
    assert(file_name@ =~= content_key@ + ".json"@);
    let mut temp_name = String::new();
    temp_name.append(content_key);
    temp_name.append(".json.tmp");
    assert(temp_name@ =~= content_key@ + ".json.tmp"@);
    Registration { manifest, file_name, temp_name }
}

/// The registration is that of a seed with these data at second `now`, or none
/// where the expiry does not fit.
pub open spec fn is_registered(
    registration: Option<Registration>,
    now: u64,
    tracker_url: Seq<char>,
    content_key: Seq<char>,
    file_path: PathBuf,
    secs: u64,
    nanos: u32,
) -> bool {
    let expiry = seed_expiry(now, secs, nanos);
    match registration {
        Some(r) => r.is(tracker_url, content_key, file_path, expiry),
        None => expiry > u64::MAX,
    }
}

/// Register a file to be seeded, as of second `now`. There is no registration where
/// the expiry is more seconds than can be counted, and only there.
pub fn try_register_seed_at(
    now: u64,
    tracker_url: &str,
    content_key: &str,
    file_path: PathBuf,
    secs: u64,
    nanos: u32,
) -> (registration: Option<Registration>)
    ensures
        is_registered(registration, now, tracker_url@, content_key@, file_path, secs, nanos),
        registration is None <==> seed_expiry(now, secs, nanos) > u64::MAX,
{
    if (secs == 0 && nanos == 0) || now <= u64::MAX - secs {
        Some(register_seed_at(now, tracker_url, content_key, file_path, secs, nanos))
    } else {
        None
    }
}

/// Register a file to be seeded: for `secs` seconds and `nanos` nanoseconds from
/// now, forever where both are zero. There is no registration where that is more
/// seconds than can be counted.
pub fn register_seed(
    tracker_url: &str,
    content_key: &str,
    file_path: PathBuf,
    secs: u64,
    nanos: u32,
) -> (registration: Option<Registration>)
    ensures
        exists|now: u64| #[trigger]
            is_registered(
                registration,
                now,
                tracker_url@,
                content_key@,
                file_path,
                secs,
                nanos,
            ),
{
    let now = now_unix();
    try_register_seed_at(now, tracker_url, content_key, file_path, secs, nanos)
}

/// The bytes of the extension of manifests, with the dot in front.
pub open spec fn manifest_suffix() -> Seq<u8> {
    seq![46u8, 106, 115, 111, 110]
}

/// A file name with the extension `json`: something, a dot and `json`. The name
/// `.json` alone has no extension.
pub open spec fn is_manifest(name: Seq<u8>) -> bool {
    name.len() > 5 && manifest_suffix().is_suffix_of(name)
}

/// Whether the file of this name, given as bytes, is taken for a manifest.
pub fn is_manifest_name(name: &Vec<u8>) -> (yes: bool)
    ensures
        yes == is_manifest(name@),
{
    let n = name.len();
    if n <= 5 {
        return false;
    }
    let yes = name[n - 5] == 46 && name[n - 4] == 106 && name[n - 3] == 115 && name[n - 2] == 111
        && name[n - 1] == 110;
    proof {
        let tail = name@.subrange(n - 5, n as int);
        if yes {
            assert(tail =~= manifest_suffix());
        } else if manifest_suffix().is_suffix_of(name@) {
            assert(tail[0] == 46 && tail[1] == 106 && tail[2] == 115 && tail[3] == 111 && tail[4]
                == 110);
        }
    }
    yes
}

/// A seed lasts as long as it was registered for: forever for no duration, and
/// otherwise to the second, unless the clock stood at zero and less than a second
/// was asked for.
pub proof fn law_seed_lasts(now: u64, secs: u64, nanos: u32, at: u64)
    requires
        seed_expiry(now, secs, nanos) <= u64::MAX,
        now + secs > 0,
    ensures
        secs == 0 && nanos == 0 ==> !is_expired_at(seed_expiry(now, secs, nanos) as u64, at),
        secs != 0 || nanos != 0 ==> (is_expired_at(seed_expiry(now, secs, nanos) as u64, at)
            <==> at >= now + secs),
{
}

/// A seed is dropped from its expiry on, and never where the expiry is zero.
pub proof fn law_expiry(expiry: u64, now: u64)
    ensures
        !is_expired_at(0, now),
        expiry > 0 && now < expiry ==> !is_expired_at(expiry, now),
        expiry > 0 && now >= expiry ==> is_expired_at(expiry, now),
{
}

/// The expiry of a seed is the second at which it was registered and the seconds that
/// it was registered for, the rest of a second left out; zero for no time at all.
pub proof fn law_expiry_of_a_registration(now: u64, secs: u64, nanos: u32)
    ensures
        seed_expiry(now, 0, 0) == 0,
        secs > 0 ==> seed_expiry(now, secs, nanos) == now + secs,
        nanos > 0 ==> seed_expiry(now, secs, nanos) == now + secs,
{
}

/// What is registered: the manifest says what was asked for, and is written under the
/// key and `.json`, by way of the key and `.json.tmp`. There is no registration only
/// where the expiry is beyond 64 bits.
pub proof fn law_what_is_registered(
    registration: Option<Registration>,
    now: u64,
    tracker_url: Seq<char>,
    content_key: Seq<char>,
    file_path: PathBuf,
    secs: u64,
    nanos: u32,
)
    requires
        is_registered(registration, now, tracker_url, content_key, file_path, secs, nanos),
    ensures
        registration is None <==> now + secs > u64::MAX && (secs > 0 || nanos > 0),
        registration matches Some(r) ==> r.manifest.content_key@ == content_key
            && r.manifest.file_path == file_path && r.manifest.tracker_url@ == tracker_url
            && r.manifest.expiry_unix == (if secs == 0 && nanos == 0 {
            0
        } else {
            now + secs
        }) && r.file_name@ == content_key + ".json"@ && r.temp_name@ == content_key + ".json.tmp"@,
{
}

/// A file is taken for a manifest exactly if its name has more than five bytes and the
/// last five are those of `.json`.
pub proof fn law_manifest_names(name: Seq<u8>)
    ensures
        is_manifest(name) <==> name.len() > 5 && name.skip(name.len() - 5) == seq![
            0x2eu8,
            0x6a,
            0x73,
            0x6f,
            0x6e,
        ],
{
    assert(manifest_suffix() =~= seq![0x2eu8, 0x6a, 0x73, 0x6f, 0x6e]);
    if name.len() > 5 {
        assert(name.skip(name.len() - 5) =~= name.subrange(name.len() - 5, name.len() as int));
    }
}

/// A manifest is found by the name that it is registered under, and not while it
/// is being written.
pub proof fn law_registration_is_found(key: Seq<char>)
    requires
        key.len() > 0,
    ensures
        is_manifest(encode_utf8(key + ".json"@)),
        !is_manifest(encode_utf8(key + ".json.tmp"@)),
{
    reveal_strlit(".json");
    reveal_strlit(".json.tmp");
    let ending = encode_utf8(".json"@);
    let temp_ending = encode_utf8(".json.tmp"@);
    vstd::utf8::is_ascii_chars_encode_utf8(".json"@);
    vstd::utf8::is_ascii_chars_encode_utf8(".json.tmp"@);
    assert(ending =~= manifest_suffix()) by {
        assert(ending[0] == '.' as u8 && ending[1] == 'j' as u8 && ending[2] == 's' as u8
            && ending[3] == 'o' as u8 && ending[4] == 'n' as u8);
    }
    assert(temp_ending[8] == 'p' as u8);
    lemma_encoding_of_sum(key, ".json"@);
    lemma_encoding_of_sum(key, ".json.tmp"@);
    vstd::utf8::encode_utf8_first_scalar(key);
    let name = encode_utf8(key + ".json"@);
    let temp = encode_utf8(key + ".json.tmp"@);
    let n = name.len() as int;
    assert(name.subrange(n - 5, n) =~= manifest_suffix());
    let m = temp.len() as int;
    assert(temp[m - 1] == 112);
    if manifest_suffix().is_suffix_of(temp) {
        assert(temp.subrange(m - 5, m)[4] == 110);
    }
}

/// The bytes of two texts together are those of the first and those of the second.
proof fn lemma_encoding_of_sum(a: Seq<char>, b: Seq<char>)
    ensures
        encode_utf8(a + b) == encode_utf8(a) + encode_utf8(b),
    decreases a.len(),
{
    if a.len() == 0 {
        assert(a + b =~= b);
        assert(encode_utf8(a) + encode_utf8(b) =~= encode_utf8(b));
    } else {
        assert((a + b).drop_first() =~= a.drop_first() + b);
        lemma_encoding_of_sum(a.drop_first(), b);
        assert(encode_utf8(a + b) =~= encode_utf8(a) + encode_utf8(b));
    }
}

} // verus!

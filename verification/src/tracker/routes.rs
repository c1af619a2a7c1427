//! The requests that the tracker answers, and what it answers to each.

use vstd::prelude::*;
use vstd::utf8::encode_utf8;

use crate::clock::now_secs;
use crate::text::{
    byte_len, control, hex_digit, is_control, is_hex_digit, is_lower_hex_digit, lower_hex_digit,
    opt_str_view, opt_view,
};
use crate::tracker::store::{
    as_str, live, opt_ascii_lower, opt_lowercase, peer_views, summary_views, ClientAddr,
    ContentMeta, ContentSummary, MetaModel, PeerEntry, PeerStore, StoreModel,
};
use crate::tracker::ui::{is_current_page_if_any, try_page};

verus! {

/// A peer's announce: the content that it serves and how to reach it.
#[derive(Debug)]
pub struct AnnounceBody {
    pub content_key: String,
    pub node_id: String,
    pub addr_info: String,
    /// Optional content metadata (filename, format, size). A client that sends
    /// none has the key treated as anonymous.
    pub filename: Option<String>,
    pub format: Option<String>,
    pub size: Option<u64>,
}

/// What an [`AnnounceBody`] says.
pub struct AnnounceModel {
    pub content_key: Seq<char>,
    pub node_id: Seq<char>,
    pub addr_info: Seq<char>,
    pub meta: MetaModel,
}

impl View for AnnounceBody {
    type V = AnnounceModel;

    open spec fn view(&self) -> AnnounceModel {
        AnnounceModel {
            content_key: self.content_key@,
            node_id: self.node_id@,
            addr_info: self.addr_info@,
            meta: MetaModel {
                filename: opt_view(self.filename),
                format: opt_view(self.format),
                size: self.size,
            },
        }
    }
}

/// A peer's notice that it serves some content no longer.
#[derive(Debug)]
pub struct LeaveBody {
    pub content_key: String,
    pub node_id: String,
}

/// A question for the peers that serve some content.
#[derive(Debug)]
pub struct PeersQuery {
    pub content_key: String,
}

/// A question for the content that is served.
#[derive(Debug)]
pub struct ContentsQuery {
    /// Case-insensitive exact match on the announced format (e.g. "gguf",
    /// "safetensors"), the "category" filter for registry UIs.
    pub format: Option<String>,
    /// Case-insensitive substring search on the announced filename.
    pub q: Option<String>,
    pub limit: Option<usize>,
}

/// What the tracker answers.
#[derive(Debug)]
pub enum Reply {
    /// The client has used up its announces of this minute.
    RateLimited,
    /// The announce is malformed.
    InvalidRequest,
    /// The content key asked for is malformed.
    InvalidContentKey,
    /// The request was carried out.
    Done,
    /// The peers that serve the content asked for.
    Providers(Vec<PeerEntry>),
    /// The content that is served.
    Contents(Vec<ContentSummary>),
}

/// Default for the page size of a content listing.
pub const DEFAULT_CONTENTS_LIMIT: usize = 100;

/// Hard cap for the page size of a content listing.
pub const MAX_CONTENTS_LIMIT: usize = 500;

/// Upper bound on a serialized endpoint address that is stored. Real records are
/// well under 1 KiB; this keeps a misbehaving client from bloating the store with
/// huge announcements.
pub const MAX_ADDR_INFO_LEN: usize = 8192;

/// Upper bound on a node id (a base32-encoded ed25519 key is about 52 chars).
pub const MAX_NODE_ID_LEN: usize = 128;

/// Upper bound on an announced filename. Filenames on every mainstream filesystem
/// cap at 255 bytes.
pub const MAX_FILENAME_LEN: usize = 512;

/// Upper bound on an announced format; formats are short extensions.
pub const MAX_FORMAT_LEN: usize = 32;

/// The address that stands for a client whose address is not known: 127.0.0.1.
pub const LOOPBACK: u32 = 0x7F00_0001;

/// The status of a request that was carried out.
pub const STATUS_OK: u16 = 200;

/// The status of a malformed request.
pub const STATUS_BAD_REQUEST: u16 = 400;

/// The status of a request beyond the rate limit.
pub const STATUS_TOO_MANY_REQUESTS: u16 = 429;

/// A content key is a SHA-256 in hexadecimal: 64 digits.
pub open spec fn is_content_key(key: Seq<char>) -> bool {
    key.len() == 64 && forall|i: int| 0 <= i < key.len() ==> is_hex_digit(#[trigger] key[i])
}

/// A content key as it is asked for: 64 hexadecimal digits in lower case.
pub open spec fn is_query_key(key: Seq<char>) -> bool {
    key.len() == 64 && forall|i: int| 0 <= i < key.len() ==> is_lower_hex_digit(#[trigger] key[i])
}

/// A text that is not empty, takes at most `max` bytes, and has no control
/// characters.
pub open spec fn is_display_safe(s: Seq<char>, max: nat) -> bool {
    &&& s.len() > 0
    &&& encode_utf8(s).len() <= max
    &&& forall|i: int| 0 <= i < s.len() ==> !is_control(#[trigger] s[i])
}

/// The description of an announce is fit to be stored.
pub open spec fn is_valid_meta(meta: MetaModel) -> bool {
    &&& meta.filename matches Some(f) ==> is_display_safe(f, MAX_FILENAME_LEN as nat)
    &&& meta.format matches Some(f) ==> is_display_safe(f, MAX_FORMAT_LEN as nat)
}

/// An announce is fit to be stored, given whether its address is valid JSON.
pub open spec fn is_valid_announce(body: AnnounceModel, addr_is_json: bool) -> bool {
    &&& is_content_key(body.content_key)
    &&& body.node_id.len() > 0
    &&& encode_utf8(body.node_id).len() <= MAX_NODE_ID_LEN
    &&& body.addr_info.len() > 0
    &&& encode_utf8(body.addr_info).len() <= MAX_ADDR_INFO_LEN
    &&& addr_is_json
    &&& is_valid_meta(body.meta)
}

/// The description that an announce carries: none where every field is absent.
pub open spec fn meta_carried(meta: MetaModel) -> Option<MetaModel> {
    if meta.filename is None && meta.format is None && meta.size is None {
        None
    } else {
        Some(meta)
    }
}

/// Whether a text is valid JSON, as the crate `serde_json` reads it.
pub uninterp spec fn is_json(text: Seq<char>) -> bool;

/// `serde_json::from_str`, read as a `serde_json::Value`: it succeeds on valid
/// JSON. Which texts those are is a function of the text alone and is not stated.
#[verifier::external_body]
fn parses_as_json(text: &str) -> (ok: bool)
    ensures
        ok == is_json(text@),
{
    serde_json::from_str::<serde_json::Value>(text).is_ok()
}

/// Whether a text is a content key as it is asked for: only 64 lower-case
/// hexadecimal digits are accepted.
pub fn valid_query_key(key: &str) -> (ok: bool)
    ensures
        ok == is_query_key(key@),
{
    let mut n: usize = 0;
    for c in it: key.chars()
        invariant
            it.seq() == key@,
            n == it.index(),
            n <= 64,
            forall|i: int| 0 <= i < it.index() ==> is_lower_hex_digit(#[trigger] it.seq()[i]),
    {
        if n == 64 || !lower_hex_digit(c) {
            assert(key@[it.index()] == c);
            return false;
        }
        n += 1;
    }
    n == 64
}

/// Whether a text is a content key.
pub fn valid_content_key(key: &str) -> (ok: bool)
    ensures
        ok == is_content_key(key@),
{
    let mut n: usize = 0;
    for c in it: key.chars()
        invariant
            it.seq() == key@,
            n == it.index(),
            n <= 64,
            forall|i: int| 0 <= i < it.index() ==> is_hex_digit(#[trigger] it.seq()[i]),
    {
        if n == 64 || !hex_digit(c) {
            assert(key@[it.index()] == c);
            return false;
        }
        n += 1;
    }
    n == 64
}

/// Whether a text is not empty, takes at most `max` bytes, and has no control
/// characters.
fn display_safe(s: &str, max: usize) -> (ok: bool)
    ensures
        ok == is_display_safe(s@, max as nat),
{
    if s.is_empty() || byte_len(s) > max {
        return false;
    }
    for c in it: s.chars()
        invariant
            it.seq() == s@,
            forall|i: int| 0 <= i < it.index() ==> !is_control(#[trigger] it.seq()[i]),
    {
        if control(c) {
            assert(s@[it.index()] == c);
            return false;
        }
    }
    true
}

/// Validates the optional metadata fields: when present they must be
/// non-empty, bounded, and free of control characters (they are echoed back
/// verbatim in listings, so what is stored is kept display-safe).
pub fn valid_meta(body: &AnnounceBody) -> (ok: bool)
    ensures
        ok == is_valid_meta(body@.meta),
{
    let filename_ok = match &body.filename {
        Some(f) => display_safe(f.as_str(), MAX_FILENAME_LEN),
        None => true,
    };
    let format_ok = match &body.format {
        Some(f) => display_safe(f.as_str(), MAX_FORMAT_LEN),
        None => true,
    };
    filename_ok && format_ok
}

/// Validates what an announce says apart from whether its address is JSON.
fn valid_fields(body: &AnnounceBody) -> (ok: bool)
    ensures
        ok == is_valid_announce(body@, true),
{
    valid_content_key(body.content_key.as_str()) && !body.node_id.as_str().is_empty() && byte_len(
        body.node_id.as_str(),
    ) <= MAX_NODE_ID_LEN && !body.addr_info.as_str().is_empty() && byte_len(
        body.addr_info.as_str(),
    ) <= MAX_ADDR_INFO_LEN && valid_meta(body)
}

/// Validates an announce body, given whether its address is valid JSON.
pub fn valid_announce_given(body: &AnnounceBody, addr_is_json: bool) -> (ok: bool)
    ensures
        ok == is_valid_announce(body@, addr_is_json),
{
    addr_is_json && valid_fields(body)
}

/// Validates an announce body before it is stored: the content key must be a
/// 64-char hex sha256, the node id must be a sane non-empty string, and addr_info
/// must be non-empty, bounded, and valid JSON (it is a serialized endpoint
/// address). Rejecting malformed records here keeps the peer store small and the
/// data handed back to downloaders well-formed.
pub fn valid_announce(body: &AnnounceBody) -> (ok: bool)
    ensures
        ok == is_valid_announce(body@, is_json(body.addr_info@)),
{
    valid_fields(body) && parses_as_json(body.addr_info.as_str())
}

/// Extracts the optional content metadata from an announce body, if any field
/// was supplied.
pub fn announce_meta(body: &AnnounceBody) -> (meta: Option<ContentMeta>)
    ensures
        match meta {
            Some(m) => meta_carried(body@.meta) == Some(m@),
            None => meta_carried(body@.meta) is None,
        },
{
    if body.filename.is_none() && body.format.is_none() && body.size.is_none() {
        return None;
    }
    Some(
        ContentMeta {
            filename: body.filename.clone(),
            format: body.format.clone(),
            size: body.size,
        },
    )
}

/// The client that a request is counted for.
pub open spec fn client_of(remote: Option<ClientAddr>) -> ClientAddr {
    match remote {
        Some(addr) => addr,
        None => ClientAddr::V4(LOOPBACK),
    }
}

/// The store after an announce of `client` at `tick` nanoseconds and second
/// `now`, given whether the announce is valid: the request is counted in any
/// case, and recorded where it is within the limit and valid.
pub open spec fn after_announce(
    store: StoreModel,
    client: (u8, u128),
    body: AnnounceModel,
    valid: bool,
    tick: u128,
    now: u64,
) -> StoreModel {
    let counted = store.counted(client, tick);
    if store.may_announce(client, tick) && valid {
        counted.announced(
            body.content_key,
            body.node_id,
            body.addr_info,
            meta_carried(body.meta),
            now,
        )
    } else {
        counted
    }
}

/// The reply to an announce, given whether it is within the limit and valid.
pub open spec fn announce_reply(allowed: bool, valid: bool) -> Reply {
    if !allowed {
        Reply::RateLimited
    } else if !valid {
        Reply::InvalidRequest
    } else {
        Reply::Done
    }
}

/// Answers an announce that came in at `tick` nanoseconds and second `now`, given
/// whether it is valid.
pub fn handle_announce_at(
    store: &mut PeerStore,
    remote: Option<ClientAddr>,
    body: AnnounceBody,
    valid: bool,
    tick: u128,
    now: u64,
) -> (reply: Reply)
    ensures
        reply == announce_reply(
            old(store)@.may_announce(client_of(remote).bucket_spec(), tick),
            valid,
        ),
        final(store)@ == after_announce(
            old(store)@,
            client_of(remote).bucket_spec(),
            body@,
            valid,
            tick,
            now,
        ),
{
    let client = match remote {
        Some(addr) => addr,
        None => ClientAddr::V4(LOOPBACK),
    };
    if !store.check_rate_limit_at(client, tick) {
        return Reply::RateLimited;
    }
    if !valid {
        return Reply::InvalidRequest;
    }
    let meta = announce_meta(&body);
    store.announce_at(body.content_key, body.node_id, body.addr_info, meta, now);
    Reply::Done
}

/// Answers an announce.
pub fn handle_announce(
    store: &mut PeerStore,
    remote: Option<ClientAddr>,
    body: AnnounceBody,
) -> (reply: Reply)
    ensures
        exists|tick: u128, now: u64|
            final(store)@ == #[trigger] after_announce(
                old(store)@,
                client_of(remote).bucket_spec(),
                body@,
                is_valid_announce(body@, is_json(body.addr_info@)),
                tick,
                now,
            ) && reply == announce_reply(
                old(store)@.may_announce(client_of(remote).bucket_spec(), tick),
                is_valid_announce(body@, is_json(body.addr_info@)),
            ),
{
    let client = match remote {
        Some(addr) => addr,
        None => ClientAddr::V4(LOOPBACK),
    };
    let tick = store.tick();
    let now = now_secs();
    // A client beyond its limit is not worth the parsing.
    let valid = store.may_announce_at(client, tick) && valid_announce(&body);
    assert(after_announce(store@, client.bucket_spec(), body@, valid, tick, now) == after_announce(
        store@,
        client.bucket_spec(),
        body@,
        is_valid_announce(body@, is_json(body.addr_info@)),
        tick,
        now,
    ));
    handle_announce_at(store, remote, body, valid, tick, now)
}

/// Answers a question for peers, asked at second `now`.
pub fn handle_peers_at(store: &PeerStore, query: &PeersQuery, now: u64) -> (reply: Reply)
    ensures
        match reply {
            Reply::Providers(peers) => is_query_key(query.content_key@) && peer_views(peers@)
                == live(store@.peers_of(query.content_key@), store@.cutoff(now)),
            Reply::InvalidContentKey => !is_query_key(query.content_key@),
            _ => false,
        },
{
    if !valid_query_key(query.content_key.as_str()) {
        return Reply::InvalidContentKey;
    }
    Reply::Providers(store.get_peers_at(query.content_key.as_str(), now))
}

/// Answers a question for peers.
pub fn handle_peers(store: &PeerStore, query: &PeersQuery) -> (reply: Reply)
    ensures
        match reply {
            Reply::Providers(peers) => is_query_key(query.content_key@) && exists|now: u64|
                peer_views(peers@) == live(
                    store@.peers_of(query.content_key@),
                    #[trigger] store@.cutoff(now),
                ),
            Reply::InvalidContentKey => !is_query_key(query.content_key@),
            _ => false,
        },
{
    let now = now_secs();
    handle_peers_at(store, query, now)
}

/// Answers a leave notice.
pub fn handle_leave(store: &mut PeerStore, body: &LeaveBody) -> (reply: Reply)
    ensures
        reply == Reply::Done,
        final(store)@ == old(store)@.left(body.content_key@, body.node_id@),
{
    store.remove_peer(body.content_key.as_str(), body.node_id.as_str());
    Reply::Done
}

/// The page size of a listing: the one asked for or the default, up to the cap.
pub open spec fn page_size(asked: Option<usize>) -> nat {
    match asked {
        Some(n) => if n < MAX_CONTENTS_LIMIT {
            n as nat
        } else {
            MAX_CONTENTS_LIMIT as nat
        },
        None => DEFAULT_CONTENTS_LIMIT as nat,
    }
}

/// The page size of a listing.
pub fn contents_limit(asked: Option<usize>) -> (limit: usize)
    ensures
        limit == page_size(asked),
{
    match asked {
        Some(n) => if n < MAX_CONTENTS_LIMIT {
            n
        } else {
            MAX_CONTENTS_LIMIT
        },
        None => DEFAULT_CONTENTS_LIMIT,
    }
}

/// Answers a question for what is served.
pub fn handle_contents(store: &PeerStore, query: &ContentsQuery) -> (reply: Reply)
    ensures
        reply matches Reply::Contents(rows) && exists|now: u64|
            store@.is_listing(
                opt_ascii_lower(opt_view(query.format)),
                opt_lowercase(opt_view(query.q)),
                page_size(query.limit),
                #[trigger] store@.cutoff(now),
                summary_views(rows@),
            ),
{
    let limit = contents_limit(query.limit);
    Reply::Contents(store.list_contents(as_str(&query.format), as_str(&query.q), limit))
}

/// What a form field asks for: one that was left empty asks for nothing.
pub open spec fn asked_for(field: Option<Seq<char>>) -> Option<Seq<char>> {
    match field {
        Some(t) => if t.len() == 0 {
            None
        } else {
            Some(t)
        },
        None => None,
    }
}

/// What a form field asks for.
fn filled(field: &Option<String>) -> (asked: Option<&str>)
    ensures
        opt_str_view(asked) == asked_for(opt_view(*field)),
{
    match field {
        Some(t) => if t.as_str().is_empty() {
            None
        } else {
            Some(t.as_str())
        },
        None => None,
    }
}

/// Answers a question for the registry page, whose form sends every field, the
/// empty ones too. There is a page unless it would list a key that cannot be
/// shortened, which no announce lets in.
pub fn handle_index(store: &PeerStore, query: &ContentsQuery) -> (html: Option<String>)
    ensures
        is_current_page_if_any(
            store@,
            asked_for(opt_view(query.format)),
            asked_for(opt_view(query.q)),
            opt_lowercase(asked_for(opt_view(query.q))),
            page_size(query.limit),
            opt_view(html),
        ),
{
    let limit = contents_limit(query.limit);
    let format = filled(&query.format);
    let q = filled(&query.q);
    assert(opt_str_view(format) == asked_for(opt_view(query.format)));
    assert(opt_str_view(q) == asked_for(opt_view(query.q)));
    try_page(store, format, q, limit)
}

impl Reply {
    /// The status code of a reply.
    pub open spec fn status_spec(self) -> u16 {
        match self {
            Reply::RateLimited => STATUS_TOO_MANY_REQUESTS,
            Reply::InvalidRequest | Reply::InvalidContentKey => STATUS_BAD_REQUEST,
            _ => STATUS_OK,
        }
    }

    /// The status code of a reply.
    pub fn status(&self) -> (code: u16)
        ensures
            code == self.status_spec(),
    {
        match self {
            Reply::RateLimited => STATUS_TOO_MANY_REQUESTS,
            Reply::InvalidRequest | Reply::InvalidContentKey => STATUS_BAD_REQUEST,
            _ => STATUS_OK,
        }
    }

    /// The error text of a reply that refuses a request.
    pub fn error(&self) -> (text: Option<&'static str>)
        ensures
            match self {
                Reply::RateLimited => text matches Some(t) && t@ == "rate limited"@,
                Reply::InvalidRequest => text matches Some(t) && t@ == "invalid request"@,
                Reply::InvalidContentKey => text matches Some(t) && t@ == "invalid content_key"@,
                _ => text is None,
            },
    {
        match self {
            Reply::RateLimited => Some("rate limited"),
            Reply::InvalidRequest => Some("invalid request"),
            Reply::InvalidContentKey => Some("invalid content_key"),
            _ => None,
        }
    }
}

} // verus!

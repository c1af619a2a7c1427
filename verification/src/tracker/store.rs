//! The peer store: who serves which content, what the content is, and how often
//! a client may announce.

use dashmap::DashMap;
use std::time::Instant;
use vstd::prelude::*;

use crate::clock::{nanos_since, now_secs};
use crate::text::{
    ascii_lower, has_text, lemma_before_is_total, lemma_before_is_transitive,
    lemma_not_before_itself, lower_ascii, occurs_in, opt_str_view, opt_view, same_text,
    stands_before, text_before, views,
};
use crate::tracker::tables::{meta_table, peer_table, rate_table, seen_table};
use crate::tracker::tables::{
    meta_drop, meta_get, meta_keys, meta_new, meta_put, peers_drop, peers_get, peers_has,
    peers_keys, peers_new, peers_put, rates_get, rates_new, rates_put, seen_drop, seen_get,
    seen_keys, seen_new, seen_put,
};

verus! {

/// A peer that serves some content.
#[derive(Debug)]
pub struct PeerEntry {
    pub node_id: String,
    pub addr_info: String,
    pub last_seen: u64,
}

/// What a [`PeerEntry`] says.
pub struct PeerModel {
    pub node_id: Seq<char>,
    pub addr_info: Seq<char>,
    pub last_seen: u64,
}

impl View for PeerEntry {
    type V = PeerModel;

    open spec fn view(&self) -> PeerModel {
        PeerModel {
            node_id: self.node_id@,
            addr_info: self.addr_info@,
            last_seen: self.last_seen,
        }
    }
}

impl Clone for PeerEntry {
    fn clone(&self) -> (copy: Self)
        ensures
            copy == *self,
    {
        PeerEntry {
            node_id: self.node_id.clone(),
            addr_info: self.addr_info.clone(),
            last_seen: self.last_seen,
        }
    }
}

/// What the entries of a sequence say.
pub open spec fn peer_views(v: Seq<PeerEntry>) -> Seq<PeerModel> {
    v.map_values(|p: PeerEntry| p@)
}

/// Optional, peer-supplied description of the content behind a content key.
/// Content keys are one-way hashes, so this is the only way the tracker can know
/// what a key actually is. The last write wins; all fields are optional.
#[derive(Debug)]
pub struct ContentMeta {
    pub filename: Option<String>,
    pub format: Option<String>,
    pub size: Option<u64>,
}

/// What a [`ContentMeta`] says.
pub struct MetaModel {
    pub filename: Option<Seq<char>>,
    pub format: Option<Seq<char>>,
    pub size: Option<u64>,
}

impl View for ContentMeta {
    type V = MetaModel;

    open spec fn view(&self) -> MetaModel {
        MetaModel {
            filename: opt_view(self.filename),
            format: opt_view(self.format),
            size: self.size,
        }
    }
}

/// What an optional description says.
pub open spec fn opt_meta_view(meta: Option<ContentMeta>) -> Option<MetaModel> {
    match meta {
        Some(m) => Some(m@),
        None => None,
    }
}

impl Clone for ContentMeta {
    fn clone(&self) -> (copy: Self)
        ensures
            copy == *self,
    {
        ContentMeta {
            filename: self.filename.clone(),
            format: self.format.clone(),
            size: self.size,
        }
    }
}

/// One row of the content listing: a content key that currently has at least one
/// live provider, plus whatever metadata peers supplied for it.
#[derive(Debug)]
pub struct ContentSummary {
    pub content_key: String,
    pub filename: Option<String>,
    pub format: Option<String>,
    pub size: Option<u64>,
    pub providers: usize,
    pub last_seen: u64,
    /// When the first provider for this key announced (the "uploaded" time in
    /// registry listings). Reset if the key fully expires and comes back.
    pub first_seen: u64,
}

/// What a [`ContentSummary`] says.
pub struct SummaryModel {
    pub content_key: Seq<char>,
    pub filename: Option<Seq<char>>,
    pub format: Option<Seq<char>>,
    pub size: Option<u64>,
    pub providers: nat,
    pub last_seen: u64,
    pub first_seen: u64,
}

impl Clone for ContentSummary {
    fn clone(&self) -> (copy: Self)
        ensures
            copy@ == self@,
    {
        ContentSummary {
            content_key: self.content_key.clone(),
            filename: self.filename.clone(),
            format: self.format.clone(),
            size: self.size,
            providers: self.providers,
            last_seen: self.last_seen,
            first_seen: self.first_seen,
        }
    }
}

impl View for ContentSummary {
    type V = SummaryModel;

    open spec fn view(&self) -> SummaryModel {
        SummaryModel {
            content_key: self.content_key@,
            filename: opt_view(self.filename),
            format: opt_view(self.format),
            size: self.size,
            providers: self.providers as nat,
            last_seen: self.last_seen,
            first_seen: self.first_seen,
        }
    }
}

/// What the rows of a sequence say.
pub open spec fn summary_views(v: Seq<ContentSummary>) -> Seq<SummaryModel> {
    v.map_values(|c: ContentSummary| c@)
}

/// The lower case of a text, as `str::to_lowercase` of std gives it.
pub uninterp spec fn lowercase(s: Seq<char>) -> Seq<char>;

/// `str::to_lowercase` of std maps every character by the Unicode tables. The
/// result is a function of the text alone; what it is on a given text is not
/// stated.
pub assume_specification[ str::to_lowercase ](s: &str) -> (lower: String)
    ensures
        lower@ == lowercase(s@),
;

/// A client that announces, by its network address.
#[derive(Clone, Copy, Debug)]
pub enum ClientAddr {
    V4(u32),
    V6(u128),
}

impl ClientAddr {
    /// The key of a client in the table of announce rates: the version of the
    /// protocol and the address.
    pub open spec fn bucket_spec(self) -> (u8, u128) {
        match self {
            ClientAddr::V4(a) => (4u8, a as u128),
            ClientAddr::V6(a) => (6u8, a),
        }
    }

    /// The key of a client in the table of announce rates.
    pub fn bucket(self) -> (key: (u8, u128))
        ensures
            key == self.bucket_spec(),
    {
        match self {
            ClientAddr::V4(a) => (4, a as u128),
            ClientAddr::V6(a) => (6, a),
        }
    }
}

/// The length of the window in which announces are counted: a minute.
pub const RATE_WINDOW_NANOS: u128 = 60_000_000_000;

/// What the store holds.
pub struct StoreModel {
    /// The providers of each content key.
    pub peers: Map<Seq<char>, Seq<PeerModel>>,
    /// The description of each content key that has one.
    pub meta: Map<Seq<char>, MetaModel>,
    /// The second of the first announce of each content key.
    pub first_seen: Map<Seq<char>, u64>,
    /// The announces of each client in its current window, and the window's start.
    pub rates: Map<(u8, u128), (u32, u128)>,
    /// How many seconds an announce is good for.
    pub ttl_secs: u64,
    /// How many announces a client has per minute.
    pub rate_limit_per_min: u32,
}

/// The position of the first entry of `node_id`, or the number of entries.
pub open spec fn position_of(s: Seq<PeerModel>, node_id: Seq<char>) -> int
    decreases s.len(),
{
    if s.len() == 0 || s[0].node_id == node_id {
        0
    } else {
        1 + position_of(s.drop_first(), node_id)
    }
}

/// The entries with `e` in place of the first one of the same node, or at the
/// end where the node has none.
pub open spec fn upserted(s: Seq<PeerModel>, e: PeerModel) -> Seq<PeerModel> {
    let at = position_of(s, e.node_id);
    if at < s.len() {
        s.update(at, e)
    } else {
        s.push(e)
    }
}

/// No two entries are of the same node.
pub open spec fn distinct_nodes(s: Seq<PeerModel>) -> bool {
    forall|i: int, j: int|
        0 <= i < j < s.len() ==> (#[trigger] s[i]).node_id != (#[trigger] s[j]).node_id
}

/// The entries seen at `cutoff` or later.
pub open spec fn live(s: Seq<PeerModel>, cutoff: u64) -> Seq<PeerModel> {
    s.filter(|p: PeerModel| p.last_seen >= cutoff)
}

/// The entries of other nodes than `node_id`.
pub open spec fn without_node(s: Seq<PeerModel>, node_id: Seq<char>) -> Seq<PeerModel> {
    s.filter(|p: PeerModel| p.node_id != node_id)
}

/// The latest second at which one of the entries was seen.
pub open spec fn latest(s: Seq<PeerModel>) -> u64
    decreases s.len(),
{
    if s.len() == 0 {
        0
    } else if s.last().last_seen > latest(s.drop_last()) {
        s.last().last_seen
    } else {
        latest(s.drop_last())
    }
}

/// The ASCII lower case of an optional text.
pub open spec fn opt_ascii_lower(s: Option<Seq<char>>) -> Option<Seq<char>> {
    match s {
        Some(t) => Some(ascii_lower(t)),
        None => None,
    }
}

/// The lower case of an optional text.
pub open spec fn opt_lowercase(s: Option<Seq<char>>) -> Option<Seq<char>> {
    match s {
        Some(t) => Some(lowercase(t)),
        None => None,
    }
}

impl StoreModel {
    /// A store that holds nothing.
    pub open spec fn empty(ttl_secs: u64, rate_limit_per_min: u32) -> StoreModel {
        StoreModel {
            peers: Map::empty(),
            meta: Map::empty(),
            first_seen: Map::empty(),
            rates: Map::empty(),
            ttl_secs,
            rate_limit_per_min,
        }
    }

    /// The tables agree: a key that has a description or a first announce is a
    /// key with a provider list and the other way round for the first announce,
    /// and no key lists a node twice.
    pub open spec fn consistent(self) -> bool {
        &&& self.peers.dom().finite()
        &&& self.first_seen.dom() == self.peers.dom()
        &&& self.meta.dom().subset_of(self.peers.dom())
        &&& forall|k: Seq<char>| #[trigger]
            self.peers.contains_key(k) ==> distinct_nodes(self.peers[k])
    }

    /// The first second whose announces are still good at `now`.
    pub open spec fn cutoff(self, now: u64) -> u64 {
        if now >= self.ttl_secs {
            (now - self.ttl_secs) as u64
        } else {
            0
        }
    }

    /// The providers listed under a key, none for an unknown key.
    pub open spec fn peers_of(self, key: Seq<char>) -> Seq<PeerModel> {
        if self.peers.contains_key(key) {
            self.peers[key]
        } else {
            Seq::empty()
        }
    }

    /// The description of a key, with every field absent where it has none.
    pub open spec fn meta_of(self, key: Seq<char>) -> MetaModel {
        if self.meta.contains_key(key) {
            self.meta[key]
        } else {
            MetaModel { filename: None, format: None, size: None }
        }
    }

    /// The store after an announce at second `now`.
    pub open spec fn announced(
        self,
        key: Seq<char>,
        node_id: Seq<char>,
        addr_info: Seq<char>,
        meta: Option<MetaModel>,
        now: u64,
    ) -> StoreModel {
        StoreModel {
            peers: self.peers.insert(
                key,
                upserted(self.peers_of(key), PeerModel { node_id, addr_info, last_seen: now }),
            ),
            meta: match meta {
                Some(m) => self.meta.insert(key, m),
                None => self.meta,
            },
            first_seen: if self.first_seen.contains_key(key) && live(
                self.peers_of(key),
                self.cutoff(now),
            ).len() > 0 {
                self.first_seen
            } else {
                self.first_seen.insert(key, now)
            },
            ..self
        }
    }

    /// The store after a node left a key.
    pub open spec fn left(self, key: Seq<char>, node_id: Seq<char>) -> StoreModel {
        if self.peers.contains_key(key) {
            StoreModel {
                peers: self.peers.insert(key, without_node(self.peers[key], node_id)),
                ..self
            }
        } else {
            self
        }
    }

    /// The store after the entries that are no longer good at `now`, and the
    /// keys that are left without one, have gone.
    pub open spec fn evicted(self, now: u64) -> StoreModel {
        let cutoff = self.cutoff(now);
        let kept = Set::new(
            |k: Seq<char>| self.peers.contains_key(k) && live(self.peers[k], cutoff).len() > 0,
        );
        StoreModel {
            peers: Map::new(
                |k: Seq<char>| kept.contains(k),
                |k: Seq<char>| live(self.peers[k], cutoff),
            ),
            meta: self.meta.restrict(kept),
            first_seen: self.first_seen.restrict(kept),
            ..self
        }
    }

    /// The count and window of a client at `tick`, before a further announce: a
    /// new client, and one whose window is over, start a window at `tick`.
    pub open spec fn rate_at(self, client: (u8, u128), tick: u128) -> (u32, u128) {
        if self.rates.contains_key(client) && tick - self.rates[client].1 < RATE_WINDOW_NANOS {
            self.rates[client]
        } else {
            (0, tick)
        }
    }

    /// Whether a client may announce at `tick`.
    pub open spec fn may_announce(self, client: (u8, u128), tick: u128) -> bool {
        self.rate_at(client, tick).0 < self.rate_limit_per_min
    }

    /// The store after a client asked to announce at `tick`.
    pub open spec fn counted(self, client: (u8, u128), tick: u128) -> StoreModel {
        let (count, start) = self.rate_at(client, tick);
        let count = if self.may_announce(client, tick) {
            (count + 1) as u32
        } else {
            count
        };
        StoreModel { rates: self.rates.insert(client, (count, start)), ..self }
    }

    /// The row of a key in a listing of what is good since `cutoff`.
    pub open spec fn summary(self, key: Seq<char>, cutoff: u64) -> SummaryModel {
        let good = live(self.peers_of(key), cutoff);
        let meta = self.meta_of(key);
        SummaryModel {
            content_key: key,
            filename: meta.filename,
            format: meta.format,
            size: meta.size,
            providers: good.len(),
            last_seen: latest(good),
            first_seen: if self.first_seen.contains_key(key) {
                self.first_seen[key]
            } else {
                latest(good)
            },
        }
    }

    /// A key belongs into a listing: it has a good provider, its format is
    /// `format` up to ASCII case where one is asked for, and its filename in
    /// lower case holds `query` where one is asked for. Both filters are given
    /// in lower case.
    pub open spec fn listed(
        self,
        key: Seq<char>,
        format: Option<Seq<char>>,
        query: Option<Seq<char>>,
        cutoff: u64,
    ) -> bool {
        &&& live(self.peers_of(key), cutoff).len() > 0
        &&& format matches Some(f) ==> opt_ascii_lower(self.meta_of(key).format) == Some(f)
        &&& query matches Some(q) ==> (self.meta_of(key).filename matches Some(name) && occurs_in(
            lowercase(name),
            q,
        ))
    }

    /// `all` is a full listing: one row for each key that belongs into it, none
    /// for another, the most seeded first, among those the latest seen, and among
    /// those the smaller key.
    pub open spec fn is_full_listing(
        self,
        format: Option<Seq<char>>,
        query: Option<Seq<char>>,
        cutoff: u64,
        all: Seq<SummaryModel>,
    ) -> bool {
        &&& in_rank_order(all)
        &&& forall|i: int, j: int|
            0 <= i < j < all.len() ==> (#[trigger] all[i]).content_key != (#[trigger] all[j]).content_key
        &&& forall|i: int|
            0 <= i < all.len() ==> self.listed((#[trigger] all[i]).content_key, format, query, cutoff)
                && all[i] == self.summary(all[i].content_key, cutoff)
        &&& forall|k: Seq<char>| #[trigger]
            self.listed(k, format, query, cutoff) ==> exists|i: int|
                0 <= i < all.len() && (#[trigger] all[i]).content_key == k
    }

    /// `out` is a listing of at most `limit` rows: a full listing, cut at the
    /// limit.
    pub open spec fn is_listing(
        self,
        format: Option<Seq<char>>,
        query: Option<Seq<char>>,
        limit: nat,
        cutoff: u64,
        out: Seq<SummaryModel>,
    ) -> bool {
        exists|all: Seq<SummaryModel>| #[trigger]
            self.is_full_listing(format, query, cutoff, all) && out == all.take(
                if limit < all.len() {
                    limit as int
                } else {
                    all.len() as int
                },
            )
    }
}

/// A row stands before another: it has more providers or, with as many, was
/// seen later.
pub open spec fn ranks_before(a: SummaryModel, b: SummaryModel) -> bool {
    a.providers > b.providers || (a.providers == b.providers && a.last_seen > b.last_seen)
}

/// A row is listed before another: it ranks before it or, with the same rank, has
/// the smaller key.
pub open spec fn lists_before(a: SummaryModel, b: SummaryModel) -> bool {
    ranks_before(a, b) || (!ranks_before(b, a) && text_before(a.content_key, b.content_key))
}

/// No row stands behind one that it is listed before.
pub open spec fn in_rank_order(s: Seq<SummaryModel>) -> bool {
    forall|i: int, j: int|
        0 <= i < j < s.len() ==> !lists_before(#[trigger] s[j], #[trigger] s[i])
}

/// The order of a listing is one: no row is listed before itself, no two rows are
/// listed each before the other, what stands between two rows is listed before the
/// one or behind the other, and of two rows with different keys one comes first.
pub proof fn lemma_lists_before(a: SummaryModel, b: SummaryModel, c: SummaryModel)
    ensures
        !lists_before(a, a),
        lists_before(a, b) ==> !lists_before(b, a),
        lists_before(a, c) ==> lists_before(a, b) || lists_before(b, c),
        a.content_key != b.content_key ==> lists_before(a, b) || lists_before(b, a),
{
    let (x, y, z) = (a.content_key, b.content_key, c.content_key);
    lemma_not_before_itself(x);
    if text_before(x, y) && text_before(y, x) {
        lemma_before_is_transitive(x, y, x);
    }
    if text_before(x, z) && !text_before(x, y) && !text_before(y, z) {
        if x != y {
            lemma_before_is_total(x, y);
            lemma_before_is_transitive(y, x, z);
        }
    }
    if x != y && !text_before(x, y) {
        lemma_before_is_total(x, y);
    }
}

/// Who serves which content.
pub struct PeerStore {
    data: DashMap<String, Vec<PeerEntry>>,
    meta: DashMap<String, ContentMeta>,
    first_seen: DashMap<String, u64>,
    rate_limits: DashMap<(u8, u128), (u32, u128)>,
    started: Instant,
    pub ttl_secs: u64,
    pub rate_limit_per_min: u32,
}

impl View for PeerStore {
    type V = StoreModel;

    closed spec fn view(&self) -> StoreModel {
        StoreModel {
            peers: peer_table(self.data),
            meta: meta_table(self.meta),
            first_seen: seen_table(self.first_seen),
            rates: rate_table(self.rate_limits),
            ttl_secs: self.ttl_secs,
            rate_limit_per_min: self.rate_limit_per_min,
        }
    }
}

/// The first entry of `node_id`, or the number of entries.
fn find_node(peers: &Vec<PeerEntry>, node_id: &String) -> (at: usize)
    ensures
        at <= peers.len(),
        at == position_of(peer_views(peers@), node_id@),
{
    let ghost s = peer_views(peers@);
    let mut at: usize = 0;
    assert(s.skip(0) =~= s);
    while at < peers.len() && peers[at].node_id != *node_id
        invariant
            at <= peers.len(),
            s == peer_views(peers@),
            position_of(s, node_id@) == at + position_of(s.skip(at as int), node_id@),
        decreases peers.len() - at,
    {
        assert(s.skip(at as int)[0] == peers@[at as int]@);
        assert(s.skip(at as int).drop_first() =~= s.skip(at + 1));
        at += 1;
    }
    if at < peers.len() {
        assert(s.skip(at as int)[0] == peers@[at as int]@);
    }
    at
}

/// A further entry is kept where it is good.
proof fn lemma_live_push(s: Seq<PeerModel>, p: PeerModel, cutoff: u64)
    ensures
        live(s.push(p), cutoff) == if p.last_seen >= cutoff {
            live(s, cutoff).push(p)
        } else {
            live(s, cutoff)
        },
{
    reveal(Seq::filter);
    assert(s.push(p).drop_last() =~= s);
}

/// A further entry is kept where it is of another node.
proof fn lemma_without_push(s: Seq<PeerModel>, p: PeerModel, node_id: Seq<char>)
    ensures
        without_node(s.push(p), node_id) == if p.node_id != node_id {
            without_node(s, node_id).push(p)
        } else {
            without_node(s, node_id)
        },
{
    reveal(Seq::filter);
    assert(s.push(p).drop_last() =~= s);
}

/// The entries seen at `cutoff` or later.
fn keep_live(peers: &Vec<PeerEntry>, cutoff: u64) -> (kept: Vec<PeerEntry>)
    ensures
        peer_views(kept@) == live(peer_views(peers@), cutoff),
{
    let ghost s = peer_views(peers@);
    let mut kept: Vec<PeerEntry> = Vec::new();
    reveal(Seq::filter);
    assert(peer_views(kept@) =~= live(s.take(0), cutoff));
    for i in 0..peers.len()
        invariant
            s == peer_views(peers@),
            peer_views(kept@) == live(s.take(i as int), cutoff),
    {
        assert(s.take(i + 1) =~= s.take(i as int).push(peers@[i as int]@));
        proof {
            lemma_live_push(s.take(i as int), peers@[i as int]@, cutoff);
        }
        if peers[i].last_seen >= cutoff {
            let ghost before = peer_views(kept@);
            kept.push(peers[i].clone());
            assert(peer_views(kept@) =~= before.push(peers@[i as int]@));
        }
    }
    assert(s.take(s.len() as int) =~= s);
    kept
}

/// The entries of other nodes than `node_id`.
fn drop_node(peers: &Vec<PeerEntry>, node_id: &str) -> (kept: Vec<PeerEntry>)
    ensures
        peer_views(kept@) == without_node(peer_views(peers@), node_id@),
{
    let ghost s = peer_views(peers@);
    let mut kept: Vec<PeerEntry> = Vec::new();
    reveal(Seq::filter);
    assert(peer_views(kept@) =~= without_node(s.take(0), node_id@));
    for i in 0..peers.len()
        invariant
            s == peer_views(peers@),
            peer_views(kept@) == without_node(s.take(i as int), node_id@),
    {
        assert(s.take(i + 1) =~= s.take(i as int).push(peers@[i as int]@));
        proof {
            lemma_without_push(s.take(i as int), peers@[i as int]@, node_id@);
        }
        if !same_text(peers[i].node_id.as_str(), node_id) {
            let ghost before = peer_views(kept@);
            kept.push(peers[i].clone());
            assert(peer_views(kept@) =~= before.push(peers@[i as int]@));
        }
    }
    assert(s.take(s.len() as int) =~= s);
    kept
}

/// The latest second at which one of the entries was seen.
fn latest_seen(peers: &Vec<PeerEntry>) -> (secs: u64)
    ensures
        secs == latest(peer_views(peers@)),
{
    let ghost s = peer_views(peers@);
    let mut secs: u64 = 0;
    for i in 0..peers.len()
        invariant
            s == peer_views(peers@),
            secs == latest(s.take(i as int)),
    {
        assert(s.take(i + 1).drop_last() =~= s.take(i as int));
        if peers[i].last_seen > secs {
            secs = peers[i].last_seen;
        }
    }
    assert(s.take(s.len() as int) =~= s);
    secs
}

/// Whether a row is listed before another.
fn goes_first(a: &ContentSummary, b: &ContentSummary) -> (yes: bool)
    ensures
        yes == lists_before(a@, b@),
{
    if a.providers != b.providers {
        a.providers > b.providers
    } else if a.last_seen != b.last_seen {
        a.last_seen > b.last_seen
    } else {
        stands_before(a.content_key.as_str(), b.content_key.as_str())
    }
}

/// A row comes before another in the order asked for, best first or worst first.
spec fn precedes(a: ContentSummary, b: ContentSummary, best_first: bool) -> bool {
    if best_first {
        lists_before(a@, b@)
    } else {
        lists_before(b@, a@)
    }
}

/// No row stands behind one that it comes before.
spec fn in_order(s: Seq<ContentSummary>, best_first: bool) -> bool {
    forall|i: int, j: int|
        0 <= i < j < s.len() ==> !precedes(#[trigger] s[j], #[trigger] s[i], best_first)
}

/// No row of a sequence in the opposite order comes before `row` where its last row
/// does not.
proof fn lemma_behind(s: Seq<ContentSummary>, j: int, row: ContentSummary, best_first: bool)
    requires
        in_order(s, !best_first),
        0 <= j < s.len(),
        !precedes(s.last(), row, best_first),
    ensures
        !precedes(s[j], row, best_first),
{
    if j < s.len() - 1 {
        assert(!precedes(s[s.len() - 1], s[j], !best_first));
        if best_first {
            lemma_lists_before(s[j]@, s.last()@, row@);
        } else {
            lemma_lists_before(row@, s.last()@, s[j]@);
        }
    }
}

/// Merges two sequences that stand in the opposite order, so that the next row
/// of each is its last.
fn merged(a: Vec<ContentSummary>, b: Vec<ContentSummary>, best_first: bool) -> (out: Vec<
    ContentSummary,
>)
    requires
        in_order(a@, !best_first),
        in_order(b@, !best_first),
    ensures
        in_order(out@, best_first),
        out@.to_multiset() == a@.to_multiset().add(b@.to_multiset()),
{
    broadcast use vstd::seq_lib::group_to_multiset_ensures;

    let ghost rows = a@.to_multiset().add(b@.to_multiset());
    let mut x = a;
    let mut y = b;
    let mut out: Vec<ContentSummary> = Vec::new();
    assert(out@.to_multiset().add(x@.to_multiset()).add(y@.to_multiset()) =~= rows) by {
        assert(out@ =~= Seq::<ContentSummary>::empty());
    }
    while x.len() > 0 || y.len() > 0
        invariant
            in_order(x@, !best_first),
            in_order(y@, !best_first),
            in_order(out@, best_first),
            forall|i: int, j: int|
                0 <= i < out.len() && 0 <= j < x.len() ==> !precedes(
                    #[trigger] x@[j],
                    #[trigger] out@[i],
                    best_first,
                ),
            forall|i: int, j: int|
                0 <= i < out.len() && 0 <= j < y.len() ==> !precedes(
                    #[trigger] y@[j],
                    #[trigger] out@[i],
                    best_first,
                ),
            out@.to_multiset().add(x@.to_multiset()).add(y@.to_multiset()) == rows,
        decreases x.len() + y.len(),
    {
        let from_x: bool = if y.len() == 0 {
            true
        } else if x.len() == 0 {
            false
        } else if best_first {
            !goes_first(&y[y.len() - 1], &x[x.len() - 1])
        } else {
            !goes_first(&x[x.len() - 1], &y[y.len() - 1])
        };
        let ghost x0 = x@;
        let ghost y0 = y@;
        let ghost out0 = out@;
        let next = if from_x {
            x.pop()
        } else {
            y.pop()
        };
        if let Some(row) = next {
            out.push(row);
            proof {
                broadcast use vstd::seq_lib::group_to_multiset_ensures;

                if from_x {
                    assert(x0 =~= x@.push(row));
                    assert(x0.to_multiset() =~= x@.to_multiset().insert(row));
                    assert forall|j: int| 0 <= j < y.len() implies !precedes(
                        #[trigger] y@[j],
                        row,
                        best_first,
                    ) by {
                        lemma_behind(y@, j, row, best_first);
                    }
                } else {
                    assert(y0 =~= y@.push(row));
                    assert(y0.to_multiset() =~= y@.to_multiset().insert(row));
                    assert forall|j: int| 0 <= j < x.len() implies !precedes(
                        #[trigger] x@[j],
                        row,
                        best_first,
                    ) by {
                        if best_first {
                            lemma_lists_before(row@, x@.last()@, row@);
                        } else {
                            lemma_lists_before(x@.last()@, row@, row@);
                        }
                        lemma_behind(x@, j, row, best_first);
                    }
                }
                assert(out@.to_multiset() =~= out0.to_multiset().insert(row));
                assert(out@.to_multiset().add(x@.to_multiset()).add(y@.to_multiset()) =~= rows);
            }
        }
    }
    assert(x@ =~= Seq::<ContentSummary>::empty());
    assert(y@ =~= Seq::<ContentSummary>::empty());
    assert(out@.to_multiset() =~= rows);
    out
}

/// The rows in the order asked for.
fn sorted(rows: Vec<ContentSummary>, best_first: bool) -> (out: Vec<ContentSummary>)
    ensures
        in_order(out@, best_first),
        out@.to_multiset() == rows@.to_multiset(),
    decreases rows.len(),
{
    if rows.len() <= 1 {
        return rows;
    }
    let ghost all = rows@;
    let half: usize = rows.len() / 2;
    let mut left = rows;
    let right = left.split_off(half);
    proof {
        vstd::seq_lib::lemma_multiset_commutative(left@, right@);
        assert(left@ + right@ =~= all);
    }
    let a = sorted(left, !best_first);
    let b = sorted(right, !best_first);
    merged(a, b, best_first)
}

/// The rows by rank, the best first.
fn ranked(rows: Vec<ContentSummary>) -> (out: Vec<ContentSummary>)
    ensures
        in_rank_order(summary_views(out@)),
        out@.to_multiset() == rows@.to_multiset(),
{
    let out = sorted(rows, true);
    assert forall|i: int, j: int| 0 <= i < j < summary_views(out@).len() implies !lists_before(
        #[trigger] summary_views(out@)[j],
        #[trigger] summary_views(out@)[i],
    ) by {
        assert(!precedes(out@[j], out@[i], true));
    }
    out
}

impl PeerStore {
    /// An empty store, in which an announce is good for `ttl_secs` seconds and a
    /// client has `rate_limit_per_min` announces a minute.
    pub fn new(ttl_secs: u64, rate_limit_per_min: u32) -> (store: PeerStore)
        ensures
            store@ == StoreModel::empty(ttl_secs, rate_limit_per_min),
    {
        PeerStore {
            data: peers_new(),
            meta: meta_new(),
            first_seen: seen_new(),
            rate_limits: rates_new(),
            started: Instant::now(),
            ttl_secs,
            rate_limit_per_min,
        }
    }

    /// The nanoseconds that the monotonic clock has run since the store was made.
    pub fn tick(&self) -> (nanos: u128) {
        nanos_since(&self.started)
    }

    /// The count and window of a client at `tick` nanoseconds.
    fn rate_of(&self, client: (u8, u128), tick: u128) -> (rate: (u32, u128))
        ensures
            rate == self@.rate_at(client, tick),
    {
        match rates_get(&self.rate_limits, client) {
            Some((count, start)) => if tick < start || tick - start < RATE_WINDOW_NANOS {
                (count, start)
            } else {
                (0, tick)
            },
            None => (0, tick),
        }
    }

    /// Whether a client may announce at `tick` nanoseconds.
    pub fn may_announce_at(&self, ip: ClientAddr, tick: u128) -> (allowed: bool)
        ensures
            allowed == self@.may_announce(ip.bucket_spec(), tick),
    {
        let (count, _start) = self.rate_of(ip.bucket(), tick);
        count < self.rate_limit_per_min
    }

    /// Counts an announce of a client at `tick` nanoseconds, unless the client has
    /// used up its minute.
    pub fn check_rate_limit_at(&mut self, ip: ClientAddr, tick: u128) -> (allowed: bool)
        ensures
            allowed == old(self)@.may_announce(ip.bucket_spec(), tick),
            final(self)@ == old(self)@.counted(ip.bucket_spec(), tick),
    {
        let client = ip.bucket();
        let (count, start) = self.rate_of(client, tick);
        if count >= self.rate_limit_per_min {
            rates_put(&mut self.rate_limits, client, (count, start));
            return false;
        }
        rates_put(&mut self.rate_limits, client, (count + 1, start));
        true
    }

    /// Counts an announce of a client, unless the client has used up its minute.
    /// Time is taken from the monotonic clock.
    pub fn check_rate_limit(&mut self, ip: ClientAddr) -> (allowed: bool)
        ensures
            exists|tick: u128| #[trigger]
                old(self)@.counted(ip.bucket_spec(), tick) == final(self)@ && allowed == old(
                    self,
                )@.may_announce(ip.bucket_spec(), tick),
    {
        let tick = self.tick();
        self.check_rate_limit_at(ip, tick)
    }

    /// Records that a node serves a key, as of second `now`. An entry of the node
    /// is replaced, a description replaces an earlier one, and the first announce
    /// of a key is remembered.
    pub fn announce_at(
        &mut self,
        content_key: String,
        node_id: String,
        addr_info: String,
        meta: Option<ContentMeta>,
        now: u64,
    )
        ensures
            final(self)@ == old(self)@.announced(
                content_key@,
                node_id@,
                addr_info@,
                opt_meta_view(meta),
                now,
            ),
    {
        let mut peers = match peers_get(&self.data, content_key.as_str()) {
            Some(peers) => peers,
            None => Vec::new(),
        };
        let ghost before = peer_views(peers@);
        assert(before =~= self@.peers_of(content_key@));
        let cutoff = now.saturating_sub(self.ttl_secs);
        let alive = keep_live(&peers, cutoff).len() > 0;
        let at = find_node(&peers, &node_id);
        let entry = PeerEntry { node_id, addr_info, last_seen: now };
        if at < peers.len() {
            peers[at] = entry;
            assert(peer_views(peers@) =~= before.update(at as int, entry@));
        } else {
            peers.push(entry);
            assert(peer_views(peers@) =~= before.push(entry@));
        }
        if let Some(m) = meta {
            meta_put(&mut self.meta, content_key.clone(), m);
        }
        if !alive || seen_get(&self.first_seen, content_key.as_str()).is_none() {
            seen_put(&mut self.first_seen, content_key.clone(), now);
        }
        peers_put(&mut self.data, content_key, peers);
    }

    /// Records that a node serves a key, as of now.
    pub fn announce(
        &mut self,
        content_key: String,
        node_id: String,
        addr_info: String,
        meta: Option<ContentMeta>,
    )
        ensures
            exists|now: u64|
                final(self)@ == #[trigger] old(self)@.announced(
                    content_key@,
                    node_id@,
                    addr_info@,
                    opt_meta_view(meta),
                    now,
                ),
    {
        let now = now_secs();
        self.announce_at(content_key, node_id, addr_info, meta, now);
    }

    /// The providers of a key that are good at second `now`.
    pub fn get_peers_at(&self, content_key: &str, now: u64) -> (peers: Vec<PeerEntry>)
        ensures
            peer_views(peers@) == live(self@.peers_of(content_key@), self@.cutoff(now)),
    {
        let cutoff = now.saturating_sub(self.ttl_secs);
        match peers_get(&self.data, content_key) {
            Some(peers) => keep_live(&peers, cutoff),
            None => {
                let none: Vec<PeerEntry> = Vec::new();
                reveal(Seq::filter);
                assert(peer_views(none@) =~= live(Seq::empty(), cutoff));
                none
            },
        }
    }

    /// The providers of a key that are good now.
    pub fn get_peers(&self, content_key: &str) -> (peers: Vec<PeerEntry>)
        ensures
            exists|now: u64|
                peer_views(peers@) == live(
                    self@.peers_of(content_key@),
                    #[trigger] self@.cutoff(now),
                ),
    {
        let now = now_secs();
        self.get_peers_at(content_key, now)
    }

    /// The row of a key in a listing, where the key belongs into it. The filters
    /// are given in lower case.
    fn summarize(&self, key: &String, format: Option<&str>, query: Option<&str>, cutoff: u64) -> (row:
        Option<ContentSummary>)
        ensures
            match row {
                Some(c) => self@.listed(key@, opt_str_view(format), opt_str_view(query), cutoff)
                    && c@ == self@.summary(key@, cutoff),
                None => !self@.listed(key@, opt_str_view(format), opt_str_view(query), cutoff),
            },
    {
        let listed = match peers_get(&self.data, key.as_str()) {
            Some(peers) => peers,
            None => Vec::new(),
        };
        assert(peer_views(listed@) =~= self@.peers_of(key@));
        let good = keep_live(&listed, cutoff);
        if good.len() == 0 {
            return None;
        }
        let meta = match meta_get(&self.meta, key.as_str()) {
            Some(meta) => meta,
            None => ContentMeta { filename: None, format: None, size: None },
        };
        if let Some(want) = format {
            let found = match &meta.format {
                Some(f) => same_text(lower_ascii(f.as_str()).as_str(), want),
                None => false,
            };
            if !found {
                return None;
            }
        }
        if let Some(needle) = query {
            let found = match &meta.filename {
                Some(name) => has_text(name.as_str().to_lowercase().as_str(), needle),
                None => false,
            };
            if !found {
                return None;
            }
        }
        let last_seen = latest_seen(&good);
        let first_seen = match seen_get(&self.first_seen, key.as_str()) {
            Some(secs) => secs,
            None => last_seen,
        };
        Some(
            ContentSummary {
                content_key: key.clone(),
                filename: meta.filename,
                format: meta.format,
                size: meta.size,
                providers: good.len(),
                last_seen,
                first_seen,
            },
        )
    }

    /// The rows of the keys that belong into a listing, in no order.
    fn summaries(&self, format: Option<&str>, query: Option<&str>, cutoff: u64) -> (rows: Vec<
        ContentSummary,
    >)
        ensures
            forall|i: int, j: int|
                0 <= i < j < rows.len() ==> (#[trigger] rows@[i]).content_key@ != (
                #[trigger] rows@[j]).content_key@,
            forall|i: int|
                0 <= i < rows.len() ==> self@.listed(
                    (#[trigger] rows@[i]).content_key@,
                    opt_str_view(format),
                    opt_str_view(query),
                    cutoff,
                ) && rows@[i]@ == self@.summary(rows@[i].content_key@, cutoff),
            forall|k: Seq<char>| #[trigger]
                self@.listed(k, opt_str_view(format), opt_str_view(query), cutoff) ==> exists|i: int|
                    0 <= i < rows.len() && (#[trigger] rows@[i]).content_key@ == k,
    {
        let keys = peers_keys(&self.data);
        let ghost names = views(keys@);
        let mut rows: Vec<ContentSummary> = Vec::new();
        for n in 0..keys.len()
            invariant
                names == views(keys@),
                names.no_duplicates(),
                forall|i: int, j: int|
                    0 <= i < j < rows.len() ==> (#[trigger] rows@[i]).content_key@ != (
                    #[trigger] rows@[j]).content_key@,
                forall|i: int|
                    0 <= i < rows.len() ==> names.take(n as int).contains(
                        (#[trigger] rows@[i]).content_key@,
                    ) && self@.listed(
                        rows@[i].content_key@,
                        opt_str_view(format),
                        opt_str_view(query),
                        cutoff,
                    ) && rows@[i]@ == self@.summary(rows@[i].content_key@, cutoff),
                forall|m: int|
                    0 <= m < n && self@.listed(
                        #[trigger] names[m],
                        opt_str_view(format),
                        opt_str_view(query),
                        cutoff,
                    ) ==> exists|i: int|
                        0 <= i < rows.len() && (#[trigger] rows@[i]).content_key@ == names[m],
        {
            let ghost before = rows@;
            assert(names[n as int] == keys@[n as int]@);
            assert(names.take(n + 1) =~= names.take(n as int).push(names[n as int]));
            assert forall|k: Seq<char>| names.take(n as int).contains(k) implies names.take(
                n + 1,
            ).contains(k) && k != names[n as int] by {
                let m = choose|m: int| 0 <= m < n && names.take(n as int)[m] == k;
                assert(names.take(n + 1)[m] == k);
                assert(names[m] == k);
            }
            assert(names.take(n + 1)[n as int] == names[n as int]);
            if let Some(row) = self.summarize(&keys[n], format, query, cutoff) {
                rows.push(row);
                assert(rows@[before.len() as int].content_key@ == names[n as int]);
                assert forall|m: int|
                    0 <= m < n + 1 && self@.listed(
                        #[trigger] names[m],
                        opt_str_view(format),
                        opt_str_view(query),
                        cutoff,
                    ) implies exists|i: int|
                    0 <= i < rows.len() && (#[trigger] rows@[i]).content_key@ == names[m] by {
                    if m < n {
                        let i = choose|i: int|
                            0 <= i < before.len() && (#[trigger] before[i]).content_key@
                                == names[m];
                        assert(rows@[i] == before[i]);
                    }
                }
            }
        }
        assert forall|k: Seq<char>| #[trigger]
            self@.listed(k, opt_str_view(format), opt_str_view(query), cutoff) implies exists|i: int|
            0 <= i < rows.len() && (#[trigger] rows@[i]).content_key@ == k by {
            if !self@.peers.contains_key(k) {
                reveal(Seq::filter);
                assert(live(self@.peers_of(k), cutoff).len() == 0);
            }
            assert(names.to_set().contains(k));
            let m = choose|m: int| 0 <= m < names.len() && names[m] == k;
            assert(names[m] == k);
        }
        rows
    }

    /// Lists the keys that have a provider good at second `now`, as
    /// [`PeerStore::list_contents`] does. The filters are given in lower case.
    pub fn list_contents_at(
        &self,
        format: Option<&str>,
        query: Option<&str>,
        limit: usize,
        now: u64,
    ) -> (out: Vec<ContentSummary>)
        ensures
            self@.is_listing(
                opt_str_view(format),
                opt_str_view(query),
                limit as nat,
                self@.cutoff(now),
                summary_views(out@),
            ),
            limit == usize::MAX ==> self@.is_full_listing(
                opt_str_view(format),
                opt_str_view(query),
                self@.cutoff(now),
                summary_views(out@),
            ),
    {
        let cutoff = now.saturating_sub(self.ttl_secs);
        let rows = self.summaries(format, query, cutoff);
        let ghost unsorted = rows@;
        let mut out = ranked(rows);
        let ghost all = out@;
        proof {
            let f = opt_str_view(format);
            let q = opt_str_view(query);
            let s = summary_views(all);
            lemma_same_rows(unsorted, all);
            assert forall|i: int, j: int| 0 <= i < j < s.len() implies (#[trigger] s[i]).content_key
                != (#[trigger] s[j]).content_key by {
                assert(all[i].content_key@ != all[j].content_key@);
            }
            assert forall|i: int| 0 <= i < s.len() implies self@.listed(
                (#[trigger] s[i]).content_key,
                f,
                q,
                cutoff,
            ) && s[i] == self@.summary(s[i].content_key, cutoff) by {
                assert(unsorted.contains(all[i]));
            }
            assert forall|k: Seq<char>| #[trigger] self@.listed(k, f, q, cutoff) implies exists|i: int|
                0 <= i < s.len() && (#[trigger] s[i]).content_key == k by {
                let i = choose|i: int|
                    0 <= i < unsorted.len() && (#[trigger] unsorted[i]).content_key@ == k;
                assert(all.contains(unsorted[i]));
                let j = choose|j: int| 0 <= j < all.len() && all[j] == unsorted[i];
                assert(s[j].content_key == k);
            }
            assert(self@.is_full_listing(f, q, cutoff, s));
        }
        if limit < out.len() {
            out.truncate(limit);
            assert(summary_views(out@) =~= summary_views(all).take(limit as int));
        } else {
            assert(summary_views(out@) =~= summary_views(all).take(all.len() as int));
            assert(summary_views(out@) =~= summary_views(all));
        }
        out
    }

    /// Lists every content key with at least one live provider, most-seeded
    /// first (ties broken by recency, then by key). `format` filters on the announced
    /// format (case-insensitive exact match); `query` is a case-insensitive
    /// substring match on the announced filename. Keys announced without
    /// metadata still appear (with null fields) unless a filter excludes them.
    pub fn list_contents(&self, format: Option<&str>, query: Option<&str>, limit: usize) -> (out:
        Vec<ContentSummary>)
        ensures
            exists|now: u64|
                self@.is_listing(
                    opt_ascii_lower(opt_str_view(format)),
                    opt_lowercase(opt_str_view(query)),
                    limit as nat,
                    #[trigger] self@.cutoff(now),
                    summary_views(out@),
                ) && (limit == usize::MAX ==> self@.is_full_listing(
                    opt_ascii_lower(opt_str_view(format)),
                    opt_lowercase(opt_str_view(query)),
                    self@.cutoff(now),
                    summary_views(out@),
                )),
    {
        let now = now_secs();
        let wanted = match format {
            Some(f) => Some(lower_ascii(f)),
            None => None,
        };
        let needle = match query {
            Some(q) => Some(q.to_lowercase()),
            None => None,
        };
        self.list_contents_at(as_str(&wanted), as_str(&needle), limit, now)
    }

    /// Takes a node off the providers of a key.
    pub fn remove_peer(&mut self, content_key: &str, node_id: &str)
        ensures
            final(self)@ == old(self)@.left(content_key@, node_id@),
    {
        if let Some(peers) = peers_get(&self.data, content_key) {
            let kept = drop_node(&peers, node_id);
            peers_put(&mut self.data, content_key.to_owned(), kept);
        }
    }

    /// The keys that the store has entries of, good or not, in no fixed order.
    pub fn known_keys(&self) -> (keys: Vec<String>)
        ensures
            views(keys@).no_duplicates(),
            views(keys@).to_set() == self@.peers.dom(),
    {
        peers_keys(&self.data)
    }

    /// Drops the entries that are no longer good at second `now`, the keys that
    /// are left without one, and their descriptions and first announces.
    pub fn evict_expired_at(&mut self, now: u64)
        ensures
            final(self)@ == old(self)@.evicted(now),
    {
        let cutoff = now.saturating_sub(self.ttl_secs);
        let ghost before = self@;
        let ghost after = self@.evicted(now);
        let keys = peers_keys(&self.data);
        let ghost names = views(keys@);
        for n in 0..keys.len()
            invariant
                names == views(keys@),
                names.no_duplicates(),
                names.to_set() == before.peers.dom(),
                cutoff == before.cutoff(now),
                self@ == (StoreModel { peers: self@.peers, ..before }),
                forall|k: Seq<char>| #[trigger]
                    self@.peers.contains_key(k) <==> before.peers.contains_key(k) && (names.take(
                        n as int,
                    ).contains(k) ==> live(before.peers[k], cutoff).len() > 0),
                forall|k: Seq<char>| #[trigger]
                    self@.peers.contains_key(k) ==> self@.peers[k] == if names.take(
                        n as int,
                    ).contains(k) {
                        live(before.peers[k], cutoff)
                    } else {
                        before.peers[k]
                    },
        {
            proof {
                lemma_taken(names, n as int);
                assert(names[n as int] == keys@[n as int]@);
                assert(names.to_set().contains(names[n as int]));
            }
            if let Some(peers) = peers_get(&self.data, keys[n].as_str()) {
                let kept = keep_live(&peers, cutoff);
                if kept.len() == 0 {
                    peers_drop(&mut self.data, keys[n].as_str());
                } else {
                    peers_put(&mut self.data, keys[n].clone(), kept);
                }
            }
        }
        proof {
            assert(names.take(names.len() as int) =~= names);
            assert forall|k: Seq<char>| names.contains(k) <==> before.peers.contains_key(k) by {
                assert(names.to_set().contains(k) <==> names.contains(k));
            }
            assert(self@.peers =~= after.peers);
        }
        let keys = meta_keys(&self.meta);
        let ghost names = views(keys@);
        for n in 0..keys.len()
            invariant
                names == views(keys@),
                names.no_duplicates(),
                names.to_set() == before.meta.dom(),
                after == before.evicted(now),
                self@ == (StoreModel { peers: after.peers, meta: self@.meta, ..before }),
                forall|k: Seq<char>| #[trigger]
                    self@.meta.contains_key(k) <==> before.meta.contains_key(k) && (names.take(
                        n as int,
                    ).contains(k) ==> after.peers.contains_key(k)),
                forall|k: Seq<char>| #[trigger]
                    self@.meta.contains_key(k) ==> self@.meta[k] == before.meta[k],
        {
            proof {
                lemma_taken(names, n as int);
                assert(names[n as int] == keys@[n as int]@);
                assert(names.to_set().contains(names[n as int]));
            }
            if !peers_has(&self.data, keys[n].as_str()) {
                meta_drop(&mut self.meta, keys[n].as_str());
            }
        }
        proof {
            assert(names.take(names.len() as int) =~= names);
            assert forall|k: Seq<char>| names.contains(k) <==> before.meta.contains_key(k) by {
                assert(names.to_set().contains(k) <==> names.contains(k));
            }
            assert(self@.meta =~= after.meta);
        }
        let keys = seen_keys(&self.first_seen);
        let ghost names = views(keys@);
        for n in 0..keys.len()
            invariant
                names == views(keys@),
                names.no_duplicates(),
                names.to_set() == before.first_seen.dom(),
                after == before.evicted(now),
                self@ == (StoreModel { first_seen: self@.first_seen, ..after }),
                forall|k: Seq<char>| #[trigger]
                    self@.first_seen.contains_key(k) <==> before.first_seen.contains_key(k) && (
                    names.take(n as int).contains(k) ==> after.peers.contains_key(k)),
                forall|k: Seq<char>| #[trigger]
                    self@.first_seen.contains_key(k) ==> self@.first_seen[k]
                        == before.first_seen[k],
        {
            proof {
                lemma_taken(names, n as int);
                assert(names[n as int] == keys@[n as int]@);
                assert(names.to_set().contains(names[n as int]));
            }
            if !peers_has(&self.data, keys[n].as_str()) {
                seen_drop(&mut self.first_seen, keys[n].as_str());
            }
        }
        proof {
            assert(names.take(names.len() as int) =~= names);
            assert forall|k: Seq<char>| names.contains(k) <==> before.first_seen.contains_key(k) by {
                assert(names.to_set().contains(k) <==> names.contains(k));
            }
            assert(self@.first_seen =~= after.first_seen);
        }
    }

    /// Drops the entries that are no longer good, the keys that are left without
    /// one, and their descriptions and first announces.
    pub fn evict_expired(&mut self)
        ensures
            exists|now: u64| final(self)@ == #[trigger] old(self)@.evicted(now),
    {
        let now = now_secs();
        self.evict_expired_at(now);
    }
}

/// An optional string as a slice.
pub fn as_str(s: &Option<String>) -> (slice: Option<&str>)
    ensures
        opt_str_view(slice) == opt_view(*s),
{
    match s {
        Some(t) => Some(t.as_str()),
        None => None,
    }
}

/// The first `n + 1` names are the first `n` and one more, which is not among them.
proof fn lemma_taken(names: Seq<Seq<char>>, n: int)
    requires
        names.no_duplicates(),
        0 <= n < names.len(),
    ensures
        !names.take(n).contains(names[n]),
        forall|k: Seq<char>| #[trigger]
            names.take(n + 1).contains(k) <==> names.take(n).contains(k) || k == names[n],
{
    assert forall|k: Seq<char>| #[trigger]
        names.take(n + 1).contains(k) <==> names.take(n).contains(k) || k == names[n] by {
        if names.take(n + 1).contains(k) {
            let next = names.take(n + 1);
            let m = choose|m: int| 0 <= m < next.len() && next[m] == k;
            if m < n {
                assert(names.take(n)[m] == k);
            }
        }
        if names.take(n).contains(k) {
            let m = choose|m: int| 0 <= m < n && names.take(n)[m] == k;
            assert(names.take(n + 1)[m] == k);
        }
        if k == names[n] {
            assert(names.take(n + 1)[n] == k);
        }
    }
    if names.take(n).contains(names[n]) {
        let m = choose|m: int| 0 <= m < n && names.take(n)[m] == names[n];
        assert(names[m] == names[n]);
    }
}

/// Rows with distinct keys keep them, and their number, in another order.
proof fn lemma_same_rows(a: Seq<ContentSummary>, b: Seq<ContentSummary>)
    requires
        a.to_multiset() == b.to_multiset(),
        forall|i: int, j: int|
            0 <= i < j < a.len() ==> (#[trigger] a[i]).content_key@ != (
            #[trigger] a[j]).content_key@,
    ensures
        forall|i: int, j: int|
            0 <= i < j < b.len() ==> (#[trigger] b[i]).content_key@ != (
            #[trigger] b[j]).content_key@,
        forall|c: ContentSummary| a.contains(c) <==> b.contains(c),
{
    broadcast use vstd::seq_lib::group_to_multiset_ensures;

    assert(a.no_duplicates());
    a.lemma_multiset_has_no_duplicates();
    b.lemma_multiset_has_no_duplicates_conv();
    assert forall|c: ContentSummary| a.contains(c) <==> b.contains(c) by {
        assert(a.contains(c) <==> a.to_multiset().count(c) > 0);
        assert(b.contains(c) <==> b.to_multiset().count(c) > 0);
    }
    assert forall|i: int, j: int| 0 <= i < j < b.len() implies (#[trigger] b[i]).content_key@ != (
    #[trigger] b[j]).content_key@ by {
        assert(b.contains(b[i]) && b.contains(b[j]));
        let x = choose|x: int| 0 <= x < a.len() && a[x] == b[i];
        let y = choose|y: int| 0 <= y < a.len() && a[y] == b[j];
        assert(x != y);
        if x < y {
            assert(a[x].content_key@ != a[y].content_key@);
        } else {
            assert(a[y].content_key@ != a[x].content_key@);
        }
    }
}

} // verus!

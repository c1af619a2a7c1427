//! The concurrent tables that the tracker keeps, and what each of them holds.
//!
//! A table is a `dashmap::DashMap`. It is reached through the functions of this
//! module alone, and one that changes it borrows it mutably, so a table never
//! changes under a reader. Each function hands out copies and holds no
//! reference into the table when it returns.

use dashmap::DashMap;
use vstd::prelude::*;

use crate::text::views;
use crate::tracker::store::{peer_views, ContentMeta, MetaModel, PeerEntry, PeerModel};

verus! {

/// The concurrent hash table of the crate `dashmap`.
#[verifier::external_type_specification]
#[verifier::external_body]
#[verifier::reject_recursive_types(K)]
#[verifier::reject_recursive_types(V)]
#[verifier::reject_recursive_types(S)]
pub struct ExDashMap<K, V, S>(DashMap<K, V, S>);

/// The peers that a table holds under each content key.
pub uninterp spec fn peer_table(t: DashMap<String, Vec<PeerEntry>>) -> Map<
    Seq<char>,
    Seq<PeerModel>,
>;

/// The description that a table holds under each content key.
pub uninterp spec fn meta_table(t: DashMap<String, ContentMeta>) -> Map<Seq<char>, MetaModel>;

/// The second that a table holds under each content key.
pub uninterp spec fn seen_table(t: DashMap<String, u64>) -> Map<Seq<char>, u64>;

/// The announce count and the start of its window that a table holds under each
/// client address.
pub uninterp spec fn rate_table(t: DashMap<(u8, u128), (u32, u128)>) -> Map<
    (u8, u128),
    (u32, u128),
>;

/// `DashMap::new` makes an empty table.
#[verifier::external_body]
pub(crate) fn peers_new() -> (t: DashMap<String, Vec<PeerEntry>>)
    ensures
        peer_table(t) == (Map::<Seq<char>, Seq<PeerModel>>::empty()),
{
    DashMap::new()
}

/// `DashMap::get` finds the value under a key; a copy of it is handed out.
#[verifier::external_body]
pub(crate) fn peers_get(t: &DashMap<String, Vec<PeerEntry>>, key: &str) -> (found: Option<
    Vec<PeerEntry>,
>)
    ensures
        match found {
            Some(peers) => peer_table(*t).contains_key(key@) && peer_views(peers@) == peer_table(
                *t,
            )[key@],
            None => !peer_table(*t).contains_key(key@),
        },
{
    t.get(key).map(|entry| entry.value().clone())
}

/// `DashMap::contains_key` tells whether a value stands under a key.
#[verifier::external_body]
pub(crate) fn peers_has(t: &DashMap<String, Vec<PeerEntry>>, key: &str) -> (has: bool)
    ensures
        has == peer_table(*t).contains_key(key@),
{
    t.contains_key(key)
}

/// `DashMap::insert` puts a value under a key, in place of one that stood there.
#[verifier::external_body]
pub(crate) fn peers_put(t: &mut DashMap<String, Vec<PeerEntry>>, key: String, peers: Vec<PeerEntry>)
    ensures
        peer_table(*final(t)) == peer_table(*old(t)).insert(key@, peer_views(peers@)),
{
    t.insert(key, peers);
}

/// `DashMap::remove` takes a key and its value out; other keys stay.
#[verifier::external_body]
pub(crate) fn peers_drop(t: &mut DashMap<String, Vec<PeerEntry>>, key: &str)
    ensures
        peer_table(*final(t)) == peer_table(*old(t)).remove(key@),
{
    t.remove(key);
}

/// `DashMap::iter` visits every entry once, in an order that is not fixed; the
/// keys are handed out.
#[verifier::external_body]
pub(crate) fn peers_keys(t: &DashMap<String, Vec<PeerEntry>>) -> (keys: Vec<String>)
    ensures
        views(keys@).no_duplicates(),
        views(keys@).to_set() == peer_table(*t).dom(),
{
    t.iter().map(|entry| entry.key().clone()).collect()
}

/// `DashMap::new` makes an empty table.
#[verifier::external_body]
pub(crate) fn meta_new() -> (t: DashMap<String, ContentMeta>)
    ensures
        meta_table(t) == (Map::<Seq<char>, MetaModel>::empty()),
{
    DashMap::new()
}

/// `DashMap::get` finds the value under a key; a copy of it is handed out.
#[verifier::external_body]
pub(crate) fn meta_get(t: &DashMap<String, ContentMeta>, key: &str) -> (found: Option<ContentMeta>)
    ensures
        match found {
            Some(meta) => meta_table(*t).contains_key(key@) && meta@ == meta_table(*t)[key@],
            None => !meta_table(*t).contains_key(key@),
        },
{
    t.get(key).map(|entry| entry.value().clone())
}

/// `DashMap::insert` puts a value under a key, in place of one that stood there.
#[verifier::external_body]
pub(crate) fn meta_put(t: &mut DashMap<String, ContentMeta>, key: String, meta: ContentMeta)
    ensures
        meta_table(*final(t)) == meta_table(*old(t)).insert(key@, meta@),
{
    t.insert(key, meta);
}

/// `DashMap::remove` takes a key and its value out; other keys stay.
#[verifier::external_body]
pub(crate) fn meta_drop(t: &mut DashMap<String, ContentMeta>, key: &str)
    ensures
        meta_table(*final(t)) == meta_table(*old(t)).remove(key@),
{
    t.remove(key);
}

/// `DashMap::iter` visits every entry once, in an order that is not fixed; the
/// keys are handed out.
#[verifier::external_body]
pub(crate) fn meta_keys(t: &DashMap<String, ContentMeta>) -> (keys: Vec<String>)
    ensures
        views(keys@).no_duplicates(),
        views(keys@).to_set() == meta_table(*t).dom(),
{
    t.iter().map(|entry| entry.key().clone()).collect()
}

/// `DashMap::new` makes an empty table.
#[verifier::external_body]
pub(crate) fn seen_new() -> (t: DashMap<String, u64>)
    ensures
        seen_table(t) == (Map::<Seq<char>, u64>::empty()),
{
    DashMap::new()
}

/// `DashMap::get` finds the value under a key.
#[verifier::external_body]
pub(crate) fn seen_get(t: &DashMap<String, u64>, key: &str) -> (found: Option<u64>)
    ensures
        match found {
            Some(secs) => seen_table(*t).contains_key(key@) && secs == seen_table(*t)[key@],
            None => !seen_table(*t).contains_key(key@),
        },
{
    t.get(key).map(|entry| *entry.value())
}

/// `DashMap::insert` puts a value under a key, in place of one that stood there.
#[verifier::external_body]
pub(crate) fn seen_put(t: &mut DashMap<String, u64>, key: String, secs: u64)
    ensures
        seen_table(*final(t)) == seen_table(*old(t)).insert(key@, secs),
{
    t.insert(key, secs);
}

/// `DashMap::remove` takes a key and its value out; other keys stay.
#[verifier::external_body]
pub(crate) fn seen_drop(t: &mut DashMap<String, u64>, key: &str)
    ensures
        seen_table(*final(t)) == seen_table(*old(t)).remove(key@),
{
    t.remove(key);
}

/// `DashMap::iter` visits every entry once, in an order that is not fixed; the
/// keys are handed out.
#[verifier::external_body]
pub(crate) fn seen_keys(t: &DashMap<String, u64>) -> (keys: Vec<String>)
    ensures
        views(keys@).no_duplicates(),
        views(keys@).to_set() == seen_table(*t).dom(),
{
    t.iter().map(|entry| entry.key().clone()).collect()
}

/// `DashMap::new` makes an empty table.
#[verifier::external_body]
pub(crate) fn rates_new() -> (t: DashMap<(u8, u128), (u32, u128)>)
    ensures
        rate_table(t) == (Map::<(u8, u128), (u32, u128)>::empty()),
{
    DashMap::new()
}

/// `DashMap::get` finds the value under a key.
#[verifier::external_body]
pub(crate) fn rates_get(t: &DashMap<(u8, u128), (u32, u128)>, key: (u8, u128)) -> (found: Option<
    (u32, u128),
>)
    ensures
        match found {
            Some(rate) => rate_table(*t).contains_key(key) && rate == rate_table(*t)[key],
            None => !rate_table(*t).contains_key(key),
        },
{
    t.get(&key).map(|entry| *entry.value())
}

/// `DashMap::insert` puts a value under a key, in place of one that stood there.
#[verifier::external_body]
pub(crate) fn rates_put(
    t: &mut DashMap<(u8, u128), (u32, u128)>,
    key: (u8, u128),
    rate: (u32, u128),
)
    ensures
        rate_table(*final(t)) == rate_table(*old(t)).insert(key, rate),
{
    t.insert(key, rate);
}

} // verus!

//! What holds of the peer store across its operations.

use vstd::prelude::*;

use crate::text::{ascii_lower, lemma_before_is_total, opt_view, text_before};
use crate::text_laws::law_occurs_between;
use crate::tracker::store::{
    distinct_nodes, latest, lemma_lists_before, lists_before, live, lowercase, opt_ascii_lower,
    opt_lowercase, position_of, ranks_before, upserted, without_node, ClientAddr, ContentMeta,
    ContentSummary, MetaModel, PeerEntry, PeerModel, StoreModel, SummaryModel, RATE_WINDOW_NANOS,
};

verus! {

/// `position_of` names the first entry of a node.
pub proof fn lemma_position_of(s: Seq<PeerModel>, node_id: Seq<char>)
    ensures
        0 <= position_of(s, node_id) <= s.len(),
        position_of(s, node_id) < s.len() ==> s[position_of(s, node_id)].node_id == node_id,
        forall|j: int| 0 <= j < position_of(s, node_id) ==> (#[trigger] s[j]).node_id != node_id,
    decreases s.len(),
{
    if s.len() > 0 && s[0].node_id != node_id {
        lemma_position_of(s.drop_first(), node_id);
        assert forall|j: int| 0 <= j < position_of(s, node_id) implies (#[trigger] s[j]).node_id
            != node_id by {
            if j > 0 {
                assert(s.drop_first()[j - 1].node_id != node_id);
            }
        }
    }
}

/// What `upserted` holds: the entry, and each earlier entry of another node.
proof fn lemma_upserted(s: Seq<PeerModel>, e: PeerModel)
    ensures
        upserted(s, e).contains(e),
        distinct_nodes(s) ==> distinct_nodes(upserted(s, e)),
{
    lemma_position_of(s, e.node_id);
    let at = position_of(s, e.node_id);
    assert(upserted(s, e)[at] == e);
}

/// A filtered sequence holds the elements that pass, and keeps distinct nodes
/// distinct.
pub proof fn lemma_filtered(s: Seq<PeerModel>, pred: spec_fn(PeerModel) -> bool)
    ensures
        forall|p: PeerModel| #[trigger]
            s.filter(pred).contains(p) <==> s.contains(p) && pred(p),
        forall|i: int| 0 <= i < s.filter(pred).len() ==> pred(#[trigger] s.filter(pred)[i]),
        distinct_nodes(s) ==> distinct_nodes(s.filter(pred)),
        s.filter(pred).filter(pred) == s.filter(pred),
    decreases s.len(),
{
    reveal(Seq::filter);
    if s.len() > 0 {
        let init = s.drop_last();
        lemma_filtered(init, pred);
        assert(s =~= init.push(s.last()));
        let kept = init.filter(pred);
        if pred(s.last()) {
            let all = s.filter(pred);
            assert(all == kept.push(s.last()));
            assert(all.drop_last() =~= kept);
            assert forall|p: PeerModel| #[trigger] all.contains(p) <==> s.contains(p) && pred(p) by {
                if all.contains(p) {
                    let i = choose|i: int| 0 <= i < all.len() && all[i] == p;
                    if i < kept.len() {
                        assert(kept.contains(p));
                        let j = choose|j: int| 0 <= j < init.len() && init[j] == p;
                        assert(s[j] == p);
                    } else {
                        assert(s[s.len() - 1] == p);
                    }
                }
                if s.contains(p) && pred(p) {
                    let j = choose|j: int| 0 <= j < s.len() && s[j] == p;
                    if j < init.len() {
                        assert(init[j] == p);
                        assert(kept.contains(p));
                        let i = choose|i: int| 0 <= i < kept.len() && kept[i] == p;
                        assert(all[i] == p);
                    } else {
                        assert(all[kept.len() as int] == p);
                    }
                }
            }
            if distinct_nodes(s) {
                assert(distinct_nodes(init));
                assert forall|i: int, j: int| 0 <= i < j < all.len() implies (
                #[trigger] all[i]).node_id != (#[trigger] all[j]).node_id by {
                    if j == kept.len() {
                        assert(kept.contains(kept[i]));
                        let x = choose|x: int| 0 <= x < init.len() && init[x] == kept[i];
                        assert(s[x].node_id != s[s.len() - 1].node_id);
                    }
                }
            }
        } else {
            assert(s.filter(pred) == kept);
            assert forall|p: PeerModel| #[trigger] kept.contains(p) <==> s.contains(p) && pred(p) by {
                if kept.contains(p) {
                    let j = choose|j: int| 0 <= j < init.len() && init[j] == p;
                    assert(s[j] == p);
                }
                if s.contains(p) && pred(p) {
                    let j = choose|j: int| 0 <= j < s.len() && s[j] == p;
                    assert(init[j] == p);
                }
            }
            if distinct_nodes(s) {
                assert(distinct_nodes(init));
            }
        }
    }
}

/// An announce puts the announcing node on its key and leaves every other provider
/// where it is: an entry of another node is there afterwards exactly if it was
/// before, in the same place, and the node itself has one entry, the one that it
/// announced, in the place of its old one or at the end.
pub proof fn law_announce_leaves_other_providers(
    s: StoreModel,
    key: Seq<char>,
    node_id: Seq<char>,
    addr_info: Seq<char>,
    meta: Option<MetaModel>,
    now: u64,
)
    ensures
        ({
            let before = s.peers_of(key);
            let after = s.announced(key, node_id, addr_info, meta, now).peers_of(key);
            let e = PeerModel { node_id, addr_info, last_seen: now };
            &&& forall|p: PeerModel|
                p.node_id != node_id ==> (#[trigger] after.contains(p) <==> before.contains(p))
            &&& after.contains(e)
            &&& before.len() <= after.len() <= before.len() + 1
            &&& forall|i: int|
                0 <= i < before.len() ==> #[trigger] after[i] == before[i] || (after[i] == e
                    && before[i].node_id == node_id)
            &&& after.len() > before.len() ==> after.last() == e && forall|i: int|
                0 <= i < before.len() ==> (#[trigger] before[i]).node_id != node_id
            &&& s.consistent() ==> forall|p: PeerModel|
                p.node_id == node_id ==> (#[trigger] after.contains(p) <==> p == e)
        }),
{
    let before = s.peers_of(key);
    let after = s.announced(key, node_id, addr_info, meta, now).peers_of(key);
    let e = PeerModel { node_id, addr_info, last_seen: now };
    lemma_upserted(before, e);
    lemma_position_of(before, node_id);
    let at = position_of(before, node_id);
    assert(after == upserted(before, e));
    assert forall|p: PeerModel| p.node_id != node_id implies (#[trigger] after.contains(p)
        <==> before.contains(p)) by {
        if after.contains(p) {
            let i = choose|i: int| 0 <= i < after.len() && after[i] == p;
            assert(before[i] == p);
        }
        if before.contains(p) {
            let i = choose|i: int| 0 <= i < before.len() && before[i] == p;
            assert(after[i] == p);
        }
    }
    if s.consistent() {
        assert(distinct_nodes(after));
        assert forall|p: PeerModel| p.node_id == node_id implies (#[trigger] after.contains(p)
            <==> p == e) by {
            if after.contains(p) {
                let i = choose|i: int| 0 <= i < after.len() && after[i] == p;
                if i < at {
                    assert(after[i].node_id != after[at].node_id);
                } else if at < i {
                    assert(after[at].node_id != after[i].node_id);
                }
            }
        }
    }
}

/// An announce changes the providers of its key, its description where it carries
/// one, and its first announce; nothing else of the store.
pub proof fn law_announce_touches_its_key_only(
    s: StoreModel,
    key: Seq<char>,
    node_id: Seq<char>,
    addr_info: Seq<char>,
    meta: Option<MetaModel>,
    now: u64,
)
    ensures
        ({
            let after = s.announced(key, node_id, addr_info, meta, now);
            &&& after.ttl_secs == s.ttl_secs
            &&& after.rate_limit_per_min == s.rate_limit_per_min
            &&& after.rates == s.rates
            &&& after.peers.remove(key) == s.peers.remove(key)
            &&& after.peers.contains_key(key)
            &&& after.meta.remove(key) == s.meta.remove(key)
            &&& after.meta.contains_key(key) <==> s.meta.contains_key(key) || meta is Some
            &&& meta is None && s.meta.contains_key(key) ==> after.meta[key] == s.meta[key]
            &&& meta matches Some(m) ==> after.meta[key] == m
            &&& after.first_seen.remove(key) == s.first_seen.remove(key)
            &&& after.first_seen.contains_key(key)
            &&& after.first_seen[key] == now || (s.first_seen.contains_key(key)
                && after.first_seen[key] == s.first_seen[key])
        }),
{
    let after = s.announced(key, node_id, addr_info, meta, now);
    assert(after.peers.remove(key) =~= s.peers.remove(key));
    assert(after.meta.remove(key) =~= s.meta.remove(key));
    assert(after.first_seen.remove(key) =~= s.first_seen.remove(key));
}

/// Who is handed out for a key: the providers that the store holds under it whose
/// announce is no older than the time to live, in the order of the store, and none
/// for a key that it does not hold.
pub proof fn law_get_hands_out_what_is_good(s: StoreModel, key: Seq<char>, now: u64)
    ensures
        ({
            let got = live(s.peers_of(key), s.cutoff(now));
            &&& s.peers.contains_key(key) ==> got == s.peers[key].filter(
                |p: PeerModel| p.last_seen + s.ttl_secs >= now,
            )
            &&& !s.peers.contains_key(key) ==> got.len() == 0
            &&& forall|p: PeerModel| #[trigger]
                got.contains(p) <==> s.peers.contains_key(key) && s.peers[key].contains(p)
                    && p.last_seen + s.ttl_secs >= now
        }),
{
    let cutoff = s.cutoff(now);
    let f = |p: PeerModel| p.last_seen >= cutoff;
    let g = |p: PeerModel| p.last_seen + s.ttl_secs >= now;
    assert(forall|p: PeerModel| #[trigger] f(p) == g(p));
    lemma_same_filter(s.peers_of(key), f, g);
    lemma_filtered(s.peers_of(key), f);
    reveal(Seq::filter);
}

/// Filters that agree keep the same entries.
proof fn lemma_same_filter(
    s: Seq<PeerModel>,
    f: spec_fn(PeerModel) -> bool,
    g: spec_fn(PeerModel) -> bool,
)
    requires
        forall|p: PeerModel| #[trigger] f(p) == g(p),
    ensures
        s.filter(f) == s.filter(g),
    decreases s.len(),
{
    reveal(Seq::filter);
    if s.len() > 0 {
        lemma_same_filter(s.drop_last(), f, g);
    }
}

/// A leave takes the entries of its node off its key, keeps all others in their
/// order, and changes nothing else of the store.
pub proof fn law_leave_takes_one_node_off(s: StoreModel, key: Seq<char>, node_id: Seq<char>)
    ensures
        ({
            let after = s.left(key, node_id);
            &&& after.peers.dom() == s.peers.dom()
            &&& after.peers.remove(key) == s.peers.remove(key)
            &&& s.peers.contains_key(key) ==> after.peers[key] == s.peers[key].filter(
                |p: PeerModel| p.node_id != node_id,
            )
            &&& after.meta == s.meta
            &&& after.first_seen == s.first_seen
            &&& after.rates == s.rates
            &&& after.ttl_secs == s.ttl_secs
            &&& after.rate_limit_per_min == s.rate_limit_per_min
        }),
{
    let after = s.left(key, node_id);
    assert(after.peers.dom() =~= s.peers.dom());
    assert(after.peers.remove(key) =~= s.peers.remove(key));
}

/// An eviction keeps exactly the keys that have an announce no older than the time
/// to live, each with those announces, its description and its first announce.
pub proof fn law_eviction_keeps_what_is_good(s: StoreModel, now: u64, key: Seq<char>)
    ensures
        ({
            let after = s.evicted(now);
            let good = s.peers.contains_key(key) && exists|i: int|
                0 <= i < s.peers[key].len() && (#[trigger] s.peers[key][i]).last_seen + s.ttl_secs
                    >= now;
            &&& after.peers.contains_key(key) <==> good
            &&& good ==> after.peers[key] == s.peers[key].filter(
                |p: PeerModel| p.last_seen + s.ttl_secs >= now,
            )
            &&& after.meta.contains_key(key) <==> good && s.meta.contains_key(key)
            &&& after.meta.contains_key(key) ==> after.meta[key] == s.meta[key]
            &&& after.first_seen.contains_key(key) <==> good && s.first_seen.contains_key(key)
            &&& after.first_seen.contains_key(key) ==> after.first_seen[key] == s.first_seen[key]
            &&& after.rates == s.rates
            &&& after.ttl_secs == s.ttl_secs
            &&& after.rate_limit_per_min == s.rate_limit_per_min
        }),
{
    law_get_hands_out_what_is_good(s, key, now);
    let got = live(s.peers_of(key), s.cutoff(now));
    if got.len() > 0 {
        assert(got.contains(got[0]));
        let i = choose|i: int| 0 <= i < s.peers[key].len() && s.peers[key][i] == got[0];
        assert(s.peers[key][i].last_seen + s.ttl_secs >= now);
    }
    if s.peers.contains_key(key) && exists|i: int|
        0 <= i < s.peers[key].len() && (#[trigger] s.peers[key][i]).last_seen + s.ttl_secs >= now {
        let i = choose|i: int|
            0 <= i < s.peers[key].len() && (#[trigger] s.peers[key][i]).last_seen + s.ttl_secs
                >= now;
        assert(s.peers[key].contains(s.peers[key][i]));
        assert(got.contains(s.peers[key][i]));
    }
}

/// Every operation keeps the tables of the store consistent: a description and a
/// first announce stand under keys with a provider list only, and no key lists a
/// node twice.
pub proof fn law_consistent(
    s: StoreModel,
    key: Seq<char>,
    node_id: Seq<char>,
    addr_info: Seq<char>,
    meta: Option<MetaModel>,
    now: u64,
    client: (u8, u128),
    tick: u128,
)
    requires
        s.consistent(),
    ensures
        s.announced(key, node_id, addr_info, meta, now).consistent(),
        s.left(key, node_id).consistent(),
        s.evicted(now).consistent(),
        s.counted(client, tick).consistent(),
{
    let e = PeerModel { node_id, addr_info, last_seen: now };
    lemma_upserted(s.peers_of(key), e);
    let a = s.announced(key, node_id, addr_info, meta, now);
    assert(a.first_seen.dom() =~= a.peers.dom());
    assert(a.consistent());
    if s.peers.contains_key(key) {
        lemma_filtered(s.peers[key], |p: PeerModel| p.node_id != node_id);
        let l = s.left(key, node_id);
        assert(l.first_seen.dom() =~= l.peers.dom());
        assert(l.consistent());
    }
    let v = s.evicted(now);
    assert(v.first_seen.dom() =~= v.peers.dom());
    assert(v.peers.dom() =~= s.peers.dom().intersect(v.peers.dom()));
    assert forall|k: Seq<char>| #[trigger] v.peers.contains_key(k) implies distinct_nodes(
        v.peers[k],
    ) by {
        lemma_filtered(s.peers[k], |p: PeerModel| p.last_seen >= s.cutoff(now));
    }
}

/// An empty store is consistent.
pub proof fn law_empty_consistent(ttl_secs: u64, rate_limit_per_min: u32)
    ensures
        StoreModel::empty(ttl_secs, rate_limit_per_min).consistent(),
{
    let s = StoreModel::empty(ttl_secs, rate_limit_per_min);
    assert(s.first_seen.dom() =~= s.peers.dom());
}

/// What was announced is handed out, with the address of the announce, for as
/// long as the announce is good, and as the only entry of its node.
pub proof fn law_announce_then_get(
    s: StoreModel,
    key: Seq<char>,
    node_id: Seq<char>,
    addr_info: Seq<char>,
    meta: Option<MetaModel>,
    now: u64,
    later: u64,
)
    requires
        s.consistent(),
        later <= now + s.ttl_secs,
    ensures
        ({
            let after = s.announced(key, node_id, addr_info, meta, now);
            let got = live(after.peers_of(key), after.cutoff(later));
            let e = PeerModel { node_id, addr_info, last_seen: now };
            &&& got.contains(e)
            &&& forall|p: PeerModel| got.contains(p) && p.node_id == node_id ==> p == e
        }),
{
    let after = s.announced(key, node_id, addr_info, meta, now);
    let e = PeerModel { node_id, addr_info, last_seen: now };
    let all = after.peers_of(key);
    let got = live(all, after.cutoff(later));
    lemma_upserted(s.peers_of(key), e);
    lemma_filtered(all, |p: PeerModel| p.last_seen >= after.cutoff(later));
    assert(got.contains(e));
    assert forall|p: PeerModel| got.contains(p) && p.node_id == node_id implies p == e by {
        let i = choose|i: int| 0 <= i < got.len() && got[i] == p;
        let j = choose|j: int| 0 <= j < got.len() && got[j] == e;
        if i < j {
            assert(got[i].node_id != got[j].node_id);
        } else if j < i {
            assert(got[j].node_id != got[i].node_id);
        }
    }
}

/// An announce that is no longer good is not handed out.
pub proof fn law_expired_is_hidden(s: StoreModel, key: Seq<char>, now: u64, p: PeerModel)
    requires
        p.last_seen + s.ttl_secs < now,
    ensures
        !live(s.peers_of(key), s.cutoff(now)).contains(p),
{
    lemma_filtered(s.peers_of(key), |q: PeerModel| q.last_seen >= s.cutoff(now));
}

/// A node that left a key is not handed out for it, and the other providers of
/// the key still are.
pub proof fn law_leave_then_get(
    s: StoreModel,
    key: Seq<char>,
    node_id: Seq<char>,
    now: u64,
    p: PeerModel,
)
    ensures
        ({
            let after = s.left(key, node_id);
            live(after.peers_of(key), after.cutoff(now)).contains(p) <==> live(
                s.peers_of(key),
                s.cutoff(now),
            ).contains(p) && p.node_id != node_id
        }),
{
    let after = s.left(key, node_id);
    reveal(Seq::filter);
    if s.peers.contains_key(key) {
        lemma_filtered(s.peers[key], |q: PeerModel| q.node_id != node_id);
    }
    lemma_filtered(s.peers_of(key), |q: PeerModel| q.last_seen >= s.cutoff(now));
    lemma_filtered(after.peers_of(key), |q: PeerModel| q.last_seen >= s.cutoff(now));
}

/// An announce and a leave touch their own key only.
pub proof fn law_other_keys_stay(
    s: StoreModel,
    key: Seq<char>,
    node_id: Seq<char>,
    addr_info: Seq<char>,
    meta: Option<MetaModel>,
    now: u64,
    other: Seq<char>,
    cutoff: u64,
)
    requires
        other != key,
    ensures
        ({
            let after = s.announced(key, node_id, addr_info, meta, now);
            after.peers_of(other) == s.peers_of(other) && after.summary(other, cutoff) == s.summary(
                other,
                cutoff,
            )
        }),
        ({
            let after = s.left(key, node_id);
            after.peers_of(other) == s.peers_of(other) && after.summary(other, cutoff) == s.summary(
                other,
                cutoff,
            )
        }),
{
}

/// The last description of a key wins, and an announce without one leaves it.
pub proof fn law_last_description_wins(
    s: StoreModel,
    key: Seq<char>,
    node_id: Seq<char>,
    addr_info: Seq<char>,
    meta: Option<MetaModel>,
    now: u64,
)
    ensures
        ({
            let after = s.announced(key, node_id, addr_info, meta, now);
            after.meta_of(key) == match meta {
                Some(m) => m,
                None => s.meta_of(key),
            }
        }),
{
}

/// The first announce of a key stands while the key has a good provider; the
/// announce of a key that has none, because it is new, has fully expired or was
/// left by all, counts as the first again. That does not wait for an eviction.
pub proof fn law_first_announce_stands(
    s: StoreModel,
    key: Seq<char>,
    node_id: Seq<char>,
    addr_info: Seq<char>,
    meta: Option<MetaModel>,
    now: u64,
)
    requires
        s.consistent(),
    ensures
        s.announced(key, node_id, addr_info, meta, now).first_seen[key] == if live(
            s.peers_of(key),
            s.cutoff(now),
        ).len() > 0 {
            s.first_seen[key]
        } else {
            now
        },
        s.evicted(now).announced(key, node_id, addr_info, meta, now).first_seen[key]
            == s.announced(key, node_id, addr_info, meta, now).first_seen[key],
        s.left(key, node_id).first_seen == s.first_seen,
        !s.evicted(now).peers.contains_key(key) ==> !s.evicted(now).first_seen.contains_key(key)
            && !s.evicted(now).meta.contains_key(key),
{
    reveal(Seq::filter);
    law_eviction_is_invisible(s, now, key);
    if live(s.peers_of(key), s.cutoff(now)).len() > 0 {
        assert(s.peers.contains_key(key));
        assert(s.first_seen.dom().contains(key));
    }
}

/// A key that fully expired and comes back is listed as first seen when it came
/// back.
pub proof fn law_first_seen_is_reset(
    s: StoreModel,
    key: Seq<char>,
    node_id: Seq<char>,
    addr_info: Seq<char>,
    meta: Option<MetaModel>,
    now: u64,
    later: u64,
)
    requires
        s.consistent(),
        live(s.peers_of(key), s.cutoff(now)).len() == 0,
    ensures
        s.announced(key, node_id, addr_info, meta, now).summary(key, s.cutoff(later)).first_seen
            == now,
{
}

/// After an eviction every key has a good provider, and descriptions and first
/// announces are left for such keys only, so no table outgrows what is served.
pub proof fn law_evicted_is_tight(s: StoreModel, now: u64, k: Seq<char>)
    ensures
        s.evicted(now).peers.contains_key(k) ==> s.evicted(now).peers[k].len() > 0,
        s.evicted(now).meta.contains_key(k) ==> s.evicted(now).peers.contains_key(k),
        s.evicted(now).first_seen.contains_key(k) ==> s.evicted(now).peers.contains_key(k),
{
}

/// An eviction changes nothing that can be seen at its second: each key has the
/// same good providers, and a good key has the same row.
pub proof fn law_eviction_is_invisible(s: StoreModel, now: u64, key: Seq<char>)
    ensures
        live(s.evicted(now).peers_of(key), s.cutoff(now)) == live(s.peers_of(key), s.cutoff(now)),
        live(s.peers_of(key), s.cutoff(now)).len() > 0 ==> s.evicted(now).summary(
            key,
            s.cutoff(now),
        ) == s.summary(key, s.cutoff(now)),
{
    let after = s.evicted(now);
    let good = |p: PeerModel| p.last_seen >= s.cutoff(now);
    lemma_filtered(s.peers_of(key), good);
    reveal(Seq::filter);
    if !after.peers.contains_key(key) {
        assert(live(s.peers_of(key), s.cutoff(now)) =~= Seq::empty());
    }
}

/// A second eviction at the same second does nothing.
pub proof fn law_eviction_is_idempotent(s: StoreModel, now: u64)
    ensures
        s.evicted(now).evicted(now) == s.evicted(now),
{
    let once = s.evicted(now);
    let twice = once.evicted(now);
    assert forall|k: Seq<char>| #[trigger] once.peers.contains_key(k) implies twice.peers.contains_key(
        k,
    ) && twice.peers[k] == once.peers[k] by {
        lemma_filtered(s.peers[k], |p: PeerModel| p.last_seen >= s.cutoff(now));
    }
    assert(twice.peers =~= once.peers);
    assert(twice.meta =~= once.meta);
    assert(twice.first_seen =~= once.first_seen);
}

/// A listing has at most `limit` rows, all of keys that belong into it, and no
/// key that was cut off ranks before a row of the listing.
pub proof fn law_listing_is_the_best(
    s: StoreModel,
    format: Option<Seq<char>>,
    query: Option<Seq<char>>,
    limit: nat,
    cutoff: u64,
    out: Seq<SummaryModel>,
    k: Seq<char>,
)
    requires
        s.is_listing(format, query, limit, cutoff, out),
    ensures
        out.len() <= limit,
        forall|i: int|
            0 <= i < out.len() ==> s.listed((#[trigger] out[i]).content_key, format, query, cutoff)
                && out[i] == s.summary(out[i].content_key, cutoff),
        s.listed(k, format, query, cutoff) && out.len() < limit ==> exists|i: int|
            0 <= i < out.len() && (#[trigger] out[i]).content_key == k,
        s.listed(k, format, query, cutoff) && (forall|i: int|
            0 <= i < out.len() ==> (#[trigger] out[i]).content_key != k) ==> forall|i: int|
            0 <= i < out.len() ==> !ranks_before(s.summary(k, cutoff), #[trigger] out[i]),
{
    let all = choose|all: Seq<SummaryModel>| #[trigger]
        s.is_full_listing(format, query, cutoff, all) && out == all.take(
            if limit < all.len() {
                limit as int
            } else {
                all.len() as int
            },
        );
    assert forall|i: int| 0 <= i < out.len() implies s.listed(
        (#[trigger] out[i]).content_key,
        format,
        query,
        cutoff,
    ) && out[i] == s.summary(out[i].content_key, cutoff) by {
        assert(all[i] == out[i]);
    }
    if s.listed(k, format, query, cutoff) {
        let at = choose|i: int| 0 <= i < all.len() && (#[trigger] all[i]).content_key == k;
        if at < out.len() {
            assert(out[at].content_key == k);
        } else {
            assert forall|i: int| 0 <= i < out.len() implies !ranks_before(
                s.summary(k, cutoff),
                #[trigger] out[i],
            ) by {
                assert(all[i] == out[i]);
                assert(all[at] == s.summary(k, cutoff));
                assert(!lists_before(all[at], all[i]));
            }
        }
    }
}

/// A full listing is one: the store, the filters and the time tell every row and
/// its place.
pub proof fn law_full_listing_is_unique(
    s: StoreModel,
    format: Option<Seq<char>>,
    query: Option<Seq<char>>,
    cutoff: u64,
    a: Seq<SummaryModel>,
    b: Seq<SummaryModel>,
)
    requires
        s.is_full_listing(format, query, cutoff, a),
        s.is_full_listing(format, query, cutoff, b),
    ensures
        a == b,
{
    assert forall|i: int| 0 <= i < a.len() && 0 <= i < b.len() implies a[i] == b[i] by {
        lemma_same_row(s, format, query, cutoff, a, b, i);
    }
    lemma_no_longer(s, format, query, cutoff, a, b);
    lemma_no_longer(s, format, query, cutoff, b, a);
    assert(a =~= b);
}

/// Two full listings have the same row in the same place.
proof fn lemma_same_row(
    s: StoreModel,
    format: Option<Seq<char>>,
    query: Option<Seq<char>>,
    cutoff: u64,
    a: Seq<SummaryModel>,
    b: Seq<SummaryModel>,
    i: int,
)
    requires
        s.is_full_listing(format, query, cutoff, a),
        s.is_full_listing(format, query, cutoff, b),
        0 <= i < a.len(),
        i < b.len(),
    ensures
        a[i] == b[i],
    decreases i,
{
    assert forall|m: int| 0 <= m < i implies a[m] == b[m] by {
        lemma_same_row(s, format, query, cutoff, a, b, m);
    }
    let j = lemma_row_is_there(s, format, query, cutoff, a, b, i);
    let k = lemma_row_is_there(s, format, query, cutoff, b, a, i);
    if j < i {
        assert(a[j].content_key != a[i].content_key);
    }
    if k < i {
        assert(b[k].content_key != b[i].content_key);
    }
    if j > i && k > i {
        assert(b[i].content_key != b[j].content_key);
        lemma_lists_before(a[i], b[i], a[i]);
        assert(!lists_before(b[j], b[i]));
        assert(!lists_before(a[k], a[i]));
    }
}

/// A row of one full listing is in the other.
proof fn lemma_row_is_there(
    s: StoreModel,
    format: Option<Seq<char>>,
    query: Option<Seq<char>>,
    cutoff: u64,
    a: Seq<SummaryModel>,
    b: Seq<SummaryModel>,
    i: int,
) -> (j: int)
    requires
        s.is_full_listing(format, query, cutoff, a),
        s.is_full_listing(format, query, cutoff, b),
        0 <= i < a.len(),
    ensures
        0 <= j < b.len(),
        b[j] == a[i],
{
    assert(s.listed(a[i].content_key, format, query, cutoff));
    let j = choose|j: int| 0 <= j < b.len() && (#[trigger] b[j]).content_key == a[i].content_key;
    j
}

/// A full listing has no more rows than another one.
proof fn lemma_no_longer(
    s: StoreModel,
    format: Option<Seq<char>>,
    query: Option<Seq<char>>,
    cutoff: u64,
    a: Seq<SummaryModel>,
    b: Seq<SummaryModel>,
)
    requires
        s.is_full_listing(format, query, cutoff, a),
        s.is_full_listing(format, query, cutoff, b),
    ensures
        a.len() <= b.len(),
{
    if a.len() > b.len() {
        let n = b.len() as int;
        let j = lemma_row_is_there(s, format, query, cutoff, a, b, n);
        lemma_same_row(s, format, query, cutoff, a, b, j);
        assert(a[j].content_key != a[n].content_key);
    }
}

/// A listing is one too.
pub proof fn law_listing_is_unique(
    s: StoreModel,
    format: Option<Seq<char>>,
    query: Option<Seq<char>>,
    limit: nat,
    cutoff: u64,
    a: Seq<SummaryModel>,
    b: Seq<SummaryModel>,
)
    requires
        s.is_listing(format, query, limit, cutoff, a),
        s.is_listing(format, query, limit, cutoff, b),
    ensures
        a == b,
{
    let x = lemma_full_of(s, format, query, limit, cutoff, a);
    let y = lemma_full_of(s, format, query, limit, cutoff, b);
    law_full_listing_is_unique(s, format, query, cutoff, x, y);
}

/// The full listing that a listing was cut from.
proof fn lemma_full_of(
    s: StoreModel,
    format: Option<Seq<char>>,
    query: Option<Seq<char>>,
    limit: nat,
    cutoff: u64,
    out: Seq<SummaryModel>,
) -> (all: Seq<SummaryModel>)
    requires
        s.is_listing(format, query, limit, cutoff, out),
    ensures
        s.is_full_listing(format, query, cutoff, all),
        out == all.take(
            if limit < all.len() {
                limit as int
            } else {
                all.len() as int
            },
        ),
{
    choose|all: Seq<SummaryModel>| #[trigger]
        s.is_full_listing(format, query, cutoff, all) && out == all.take(
            if limit < all.len() {
                limit as int
            } else {
                all.len() as int
            },
        )
}

/// A listing with a limit is the beginning of the full one: it has as many rows as
/// the limit or the full listing allows, in order, all of them rows of the full
/// listing, and no row that was left out ranks before one of them.
pub proof fn law_limit_cuts_the_full_listing(
    s: StoreModel,
    format: Option<Seq<char>>,
    query: Option<Seq<char>>,
    limit: nat,
    cutoff: u64,
    full: Seq<SummaryModel>,
    out: Seq<SummaryModel>,
)
    requires
        s.is_full_listing(format, query, cutoff, full),
        s.is_listing(format, query, limit, cutoff, out),
    ensures
        out.len() == if limit < full.len() {
            limit
        } else {
            full.len()
        },
        out == full.take(out.len() as int),
        forall|i: int, j: int|
            0 <= i < j < out.len() ==> !ranks_before(#[trigger] out[j], #[trigger] out[i]),
        forall|i: int, j: int|
            0 <= i < out.len() && out.len() <= j < full.len() ==> !ranks_before(
                #[trigger] full[j],
                #[trigger] out[i],
            ),
{
    let all = lemma_full_of(s, format, query, limit, cutoff, out);
    law_full_listing_is_unique(s, format, query, cutoff, all, full);
    assert forall|i: int, j: int| 0 <= i < j < full.len() implies !ranks_before(
        #[trigger] full[j],
        #[trigger] full[i],
    ) by {
        assert(!lists_before(full[j], full[i]));
    }
    assert forall|i: int| 0 <= i < out.len() implies #[trigger] out[i] == full[i] by {}
}

/// How many rows a listing has: one for each key that belongs into it, up to the
/// limit.
pub proof fn law_listing_length(
    s: StoreModel,
    format: Option<Seq<char>>,
    query: Option<Seq<char>>,
    limit: nat,
    cutoff: u64,
    out: Seq<SummaryModel>,
)
    requires
        s.is_listing(format, query, limit, cutoff, out),
    ensures
        ({
            let keys = Set::new(|k: Seq<char>| s.listed(k, format, query, cutoff));
            &&& keys.finite()
            &&& out.len() == if limit < keys.len() {
                limit
            } else {
                keys.len()
            }
        }),
{
    let keys = Set::new(|k: Seq<char>| s.listed(k, format, query, cutoff));
    let all = choose|all: Seq<SummaryModel>| #[trigger]
        s.is_full_listing(format, query, cutoff, all) && out == all.take(
            if limit < all.len() {
                limit as int
            } else {
                all.len() as int
            },
        );
    let names = all.map_values(|c: SummaryModel| c.content_key);
    assert forall|i: int, j: int| 0 <= i < names.len() && 0 <= j < names.len() && i != j implies names[i]
        != names[j] by {
        if i < j {
            assert(all[i].content_key != all[j].content_key);
        } else {
            assert(all[j].content_key != all[i].content_key);
        }
    }
    assert(names.no_duplicates());
    assert forall|k: Seq<char>| names.to_set().contains(k) <==> keys.contains(k) by {
        if keys.contains(k) {
            let i = choose|i: int| 0 <= i < all.len() && (#[trigger] all[i]).content_key == k;
            assert(names[i] == k);
        }
        if names.to_set().contains(k) {
            let i = choose|i: int| 0 <= i < names.len() && names[i] == k;
            assert(all[i].content_key == k);
        }
    }
    assert(names.to_set() =~= keys);
    names.unique_seq_to_set();
}

/// What was announced belongs into the unfiltered listing for as long as the
/// announce is good.
pub proof fn law_announced_is_listed(
    s: StoreModel,
    key: Seq<char>,
    node_id: Seq<char>,
    addr_info: Seq<char>,
    meta: Option<MetaModel>,
    now: u64,
    later: u64,
)
    requires
        s.consistent(),
        later <= now + s.ttl_secs,
    ensures
        ({
            let after = s.announced(key, node_id, addr_info, meta, now);
            after.listed(key, None, None, after.cutoff(later))
        }),
{
    law_announce_then_get(s, key, node_id, addr_info, meta, now, later);
}

/// An eviction leaves every listing of its second as it was.
pub proof fn law_eviction_keeps_listings(
    s: StoreModel,
    now: u64,
    format: Option<Seq<char>>,
    query: Option<Seq<char>>,
    limit: nat,
    out: Seq<SummaryModel>,
)
    ensures
        s.evicted(now).is_listing(format, query, limit, s.cutoff(now), out) <==> s.is_listing(
            format,
            query,
            limit,
            s.cutoff(now),
            out,
        ),
{
    let after = s.evicted(now);
    let cutoff = s.cutoff(now);
    assert forall|k: Seq<char>| #[trigger] after.listed(k, format, query, cutoff) <==> s.listed(
        k,
        format,
        query,
        cutoff,
    ) by {
        law_eviction_is_invisible(s, now, k);
        assert(live(s.peers_of(k), cutoff).len() > 0 ==> after.peers.contains_key(k)) by {
            reveal(Seq::filter);
        }
    }
    assert forall|k: Seq<char>| s.listed(k, format, query, cutoff) implies #[trigger] after.summary(
        k,
        cutoff,
    ) == s.summary(k, cutoff) by {
        law_eviction_is_invisible(s, now, k);
    }
    assert forall|all: Seq<SummaryModel>|
        #![trigger after.is_full_listing(format, query, cutoff, all)]
        #![trigger s.is_full_listing(format, query, cutoff, all)]
        after.is_full_listing(format, query, cutoff, all) <==> s.is_full_listing(
        format,
        query,
        cutoff,
        all,
    ) by {
        if s.is_full_listing(format, query, cutoff, all) {
            assert forall|i: int| 0 <= i < all.len() implies after.listed(
                (#[trigger] all[i]).content_key,
                format,
                query,
                cutoff,
            ) && all[i] == after.summary(all[i].content_key, cutoff) by {
                assert(s.listed(all[i].content_key, format, query, cutoff));
            }
            assert forall|k: Seq<char>| #[trigger]
                after.listed(k, format, query, cutoff) implies exists|i: int|
                0 <= i < all.len() && (#[trigger] all[i]).content_key == k by {
                assert(s.listed(k, format, query, cutoff));
            }
        }
        if after.is_full_listing(format, query, cutoff, all) {
            assert forall|i: int| 0 <= i < all.len() implies s.listed(
                (#[trigger] all[i]).content_key,
                format,
                query,
                cutoff,
            ) && all[i] == s.summary(all[i].content_key, cutoff) by {
                assert(after.listed(all[i].content_key, format, query, cutoff));
            }
            assert forall|k: Seq<char>| #[trigger]
                s.listed(k, format, query, cutoff) implies exists|i: int|
                0 <= i < all.len() && (#[trigger] all[i]).content_key == k by {
                assert(after.listed(k, format, query, cutoff));
            }
        }
    }
}

/// A key that belongs into a listing has a provider list.
pub proof fn law_listed_is_known(
    s: StoreModel,
    key: Seq<char>,
    format: Option<Seq<char>>,
    query: Option<Seq<char>>,
    cutoff: u64,
)
    requires
        s.listed(key, format, query, cutoff),
    ensures
        s.peers.contains_key(key),
{
    reveal(Seq::filter);
}

/// Without filters, every key with a good provider belongs into the listing,
/// also one without a description; a query leaves out a key without a filename,
/// and a format a key without a format.
pub proof fn law_filters(
    s: StoreModel,
    key: Seq<char>,
    format: Option<Seq<char>>,
    query: Option<Seq<char>>,
    cutoff: u64,
)
    ensures
        s.listed(key, None, None, cutoff) <==> live(s.peers_of(key), cutoff).len() > 0,
        s.listed(key, format, query, cutoff) ==> s.listed(key, None, None, cutoff),
        query is Some && s.meta_of(key).filename is None ==> !s.listed(key, format, query, cutoff),
        format is Some && s.meta_of(key).format is None ==> !s.listed(key, format, query, cutoff),
{
}

/// What the row of a key tells: how many of its providers are good, when the latest
/// of them was seen, when the first announced, and what is known of the content.
pub proof fn law_row_tells_of_its_key(s: StoreModel, key: Seq<char>, now: u64)
    requires
        live(s.peers_of(key), s.cutoff(now)).len() > 0,
    ensures
        ({
            let row = s.summary(key, s.cutoff(now));
            let good = s.peers[key].filter(|p: PeerModel| p.last_seen + s.ttl_secs >= now);
            &&& s.peers.contains_key(key)
            &&& row.content_key == key
            &&& row.providers == good.len()
            &&& exists|i: int| 0 <= i < good.len() && row.last_seen == (#[trigger] good[i]).last_seen
            &&& forall|i: int| 0 <= i < good.len() ==> (#[trigger] good[i]).last_seen <= row.last_seen
            &&& row.first_seen == if s.first_seen.contains_key(key) {
                s.first_seen[key]
            } else {
                row.last_seen
            }
            &&& s.meta.contains_key(key) ==> row.filename == s.meta[key].filename && row.format
                == s.meta[key].format && row.size == s.meta[key].size
            &&& !s.meta.contains_key(key) ==> row.filename is None && row.format is None
                && row.size is None
        }),
{
    law_get_hands_out_what_is_good(s, key, now);
    let good = live(s.peers_of(key), s.cutoff(now));
    lemma_latest_is_one(good);
    assert forall|i: int| 0 <= i < good.len() implies (#[trigger] good[i]).last_seen <= latest(
        good,
    ) by {
        lemma_latest_bounds(good, i);
    }
}

/// `latest` is that of one of the entries.
proof fn lemma_latest_is_one(s: Seq<PeerModel>)
    requires
        s.len() > 0,
    ensures
        exists|i: int| 0 <= i < s.len() && latest(s) == (#[trigger] s[i]).last_seen,
    decreases s.len(),
{
    if s.len() == 1 || s.last().last_seen > latest(s.drop_last()) {
        assert(latest(s.drop_last()) >= 0);
        if s.len() == 1 {
            assert(s.drop_last().len() == 0);
        }
        assert(latest(s) == s[s.len() - 1].last_seen);
    } else {
        lemma_latest_is_one(s.drop_last());
        let i = choose|i: int|
            0 <= i < s.drop_last().len() && latest(s.drop_last()) == (
            #[trigger] s.drop_last()[i]).last_seen;
        assert(s[i] == s.drop_last()[i]);
    }
}

/// Which keys a listing shows: those with a good provider that pass both filters.
/// The format filter lets a key pass whose description names the format, up to the
/// case of ASCII letters; the query one whose filename, in lower case, holds it. A
/// key passes both exactly if it passes each for itself.
pub proof fn law_listed_keys_pass_both_filters(
    s: StoreModel,
    key: Seq<char>,
    format: Option<Seq<char>>,
    query: Option<Seq<char>>,
    now: u64,
)
    ensures
        ({
            let cutoff = s.cutoff(now);
            let good = s.peers.contains_key(key) && exists|i: int|
                0 <= i < s.peers[key].len() && (#[trigger] s.peers[key][i]).last_seen + s.ttl_secs
                    >= now;
            let format_passes = format is None || (s.meta.contains_key(key)
                && s.meta[key].format is Some && ascii_lower(s.meta[key].format->0) == format->0);
            let query_passes = query is None || (s.meta.contains_key(key)
                && s.meta[key].filename is Some && exists|x: Seq<char>, y: Seq<char>|
                lowercase(s.meta[key].filename->0) == #[trigger] (x + query->0 + y));
            &&& s.listed(key, format, query, cutoff) <==> good && format_passes && query_passes
            &&& s.listed(key, format, query, cutoff) <==> s.listed(key, format, None, cutoff)
                && s.listed(key, None, query, cutoff)
        }),
{
    law_eviction_keeps_what_is_good(s, now, key);
    law_get_hands_out_what_is_good(s, key, now);
    if let Some(q) = query {
        if s.meta.contains_key(key) && s.meta[key].filename is Some {
            law_occurs_between(lowercase(s.meta[key].filename->0), q);
        }
    }
}

/// The rows of a listing, as they are shown: each is the row of a key with a good
/// provider, has the format asked for, up to the case of ASCII letters, whatever the
/// query, and a filename that holds the query, whatever the format; the most seeded
/// stand first, among those the latest seen, and among those the smaller key.
pub proof fn law_rows_of_a_listing(
    s: StoreModel,
    format: Option<Seq<char>>,
    query: Option<Seq<char>>,
    limit: nat,
    now: u64,
    out: Seq<SummaryModel>,
)
    requires
        s.is_listing(format, query, limit, s.cutoff(now), out),
    ensures
        out.len() <= limit,
        forall|i: int|
            0 <= i < out.len() ==> (#[trigger] out[i]).providers > 0 && s.peers.contains_key(
                out[i].content_key,
            ),
        format matches Some(f) ==> forall|i: int|
            0 <= i < out.len() ==> (#[trigger] out[i]).format is Some && ascii_lower(
                out[i].format->0,
            ) == f,
        query matches Some(q) ==> forall|i: int|
            0 <= i < out.len() ==> (#[trigger] out[i]).filename is Some && exists|
                x: Seq<char>,
                y: Seq<char>,
            |
                lowercase(out[i].filename->0) == #[trigger] (x + q + y),
        forall|i: int, j: int|
            0 <= i < j < out.len() ==> (#[trigger] out[i]).content_key != (
            #[trigger] out[j]).content_key && (out[i].providers > out[j].providers || (
            out[i].providers == out[j].providers && (out[i].last_seen > out[j].last_seen || (
            out[i].last_seen == out[j].last_seen && text_before(
                out[i].content_key,
                out[j].content_key,
            ))))),
{
    let cutoff = s.cutoff(now);
    law_listing_is_the_best(s, format, query, limit, cutoff, out, Seq::empty());
    let all = lemma_full_of(s, format, query, limit, cutoff, out);
    assert forall|i: int| 0 <= i < out.len() implies (#[trigger] out[i]).providers > 0
        && s.peers.contains_key(out[i].content_key) by {
        law_listed_keys_pass_both_filters(s, out[i].content_key, format, query, now);
    }
    if let Some(f) = format {
        assert forall|i: int| 0 <= i < out.len() implies (#[trigger] out[i]).format is Some
            && ascii_lower(out[i].format->0) == f by {
            law_listed_keys_pass_both_filters(s, out[i].content_key, format, query, now);
        }
    }
    if let Some(q) = query {
        assert forall|i: int| 0 <= i < out.len() implies (#[trigger] out[i]).filename is Some
            && exists|x: Seq<char>, y: Seq<char>|
            lowercase(out[i].filename->0) == #[trigger] (x + q + y) by {
            law_listed_keys_pass_both_filters(s, out[i].content_key, format, query, now);
        }
    }
    assert forall|i: int, j: int| 0 <= i < j < out.len() implies (#[trigger] out[i]).content_key
        != (#[trigger] out[j]).content_key && (out[i].providers > out[j].providers || (
    out[i].providers == out[j].providers && (out[i].last_seen > out[j].last_seen || (
    out[i].last_seen == out[j].last_seen && text_before(
        out[i].content_key,
        out[j].content_key,
    ))))) by {
        assert(all[i] == out[i] && all[j] == out[j]);
        assert(all[i].content_key != all[j].content_key);
        assert(!lists_before(all[j], all[i]));
        if !text_before(out[j].content_key, out[i].content_key) {
            lemma_before_is_total(out[j].content_key, out[i].content_key);
        }
    }
}

/// A key that passes the filters has its row in the listing, unless the listing is
/// full of rows that stand before it.
pub proof fn law_no_key_is_left_out(
    s: StoreModel,
    format: Option<Seq<char>>,
    query: Option<Seq<char>>,
    limit: nat,
    now: u64,
    out: Seq<SummaryModel>,
    key: Seq<char>,
)
    requires
        s.is_listing(format, query, limit, s.cutoff(now), out),
        s.listed(key, format, query, s.cutoff(now)),
    ensures
        ({
            let row = s.summary(key, s.cutoff(now));
            out.contains(row) || (out.len() == limit && forall|i: int|
                0 <= i < out.len() ==> (#[trigger] out[i]).providers > row.providers || (
                out[i].providers == row.providers && out[i].last_seen >= row.last_seen))
        }),
{
    law_listing_is_the_best(s, format, query, limit, s.cutoff(now), out, key);
    if exists|i: int| 0 <= i < out.len() && (#[trigger] out[i]).content_key == key {
        let i = choose|i: int| 0 <= i < out.len() && (#[trigger] out[i]).content_key == key;
        assert(out[i] == s.summary(key, s.cutoff(now)));
    }
}

/// Each entry that is good at second `now` was seen no earlier than the first
/// announce of its key.
pub open spec fn seen_after_first(s: StoreModel, now: u64) -> bool {
    forall|k: Seq<char>, i: int|
        s.peers.contains_key(k) && 0 <= i < s.peers[k].len() && s.peers[k][i].last_seen
            >= s.cutoff(now) ==> s.first_seen[k] <= #[trigger] s.peers[k][i].last_seen
}

/// Where the clock does not run backwards, no row of a listing was first seen
/// after it was last seen: an announce, a leave, an eviction and the passing of
/// time keep each good entry at or after the first announce of its key, and a row
/// then shows so.
pub proof fn law_first_seen_before_last_seen(
    s: StoreModel,
    key: Seq<char>,
    node_id: Seq<char>,
    addr_info: Seq<char>,
    meta: Option<MetaModel>,
    now: u64,
    later: u64,
)
    requires
        s.consistent(),
        seen_after_first(s, now),
        s.first_seen.contains_key(key) ==> s.first_seen[key] <= now,
        now <= later,
    ensures
        seen_after_first(s.announced(key, node_id, addr_info, meta, now), now),
        seen_after_first(s.left(key, node_id), now),
        seen_after_first(s.evicted(now), now),
        seen_after_first(s, later),
        live(s.peers_of(key), s.cutoff(now)).len() > 0 ==> s.summary(
            key,
            s.cutoff(now),
        ).first_seen <= s.summary(key, s.cutoff(now)).last_seen,
{
    let e = PeerModel { node_id, addr_info, last_seen: now };
    let a = s.announced(key, node_id, addr_info, meta, now);
    let cutoff = s.cutoff(now);
    lemma_position_of(s.peers_of(key), node_id);
    lemma_filtered(s.peers_of(key), |p: PeerModel| p.last_seen >= cutoff);
    assert(seen_after_first(a, now)) by {
        assert forall|k: Seq<char>, i: int|
            a.peers.contains_key(k) && 0 <= i < a.peers[k].len() && a.peers[k][i].last_seen
                >= a.cutoff(now) implies a.first_seen[k] <= #[trigger] a.peers[k][i].last_seen by {
            if k == key {
                let before = s.peers_of(key);
                let at = position_of(before, node_id);
                if i != at && i < before.len() {
                    assert(a.peers[k][i] == before[i]);
                    assert(before.contains(before[i]));
                    assert(live(before, cutoff).contains(before[i]));
                    assert(s.first_seen[k] <= s.peers[k][i].last_seen);
                }
            } else {
                assert(s.first_seen[k] <= s.peers[k][i].last_seen);
            }
        }
    }
    let l = s.left(key, node_id);
    assert forall|k: Seq<char>, i: int|
        l.peers.contains_key(k) && 0 <= i < l.peers[k].len() && l.peers[k][i].last_seen
            >= l.cutoff(now) implies l.first_seen[k] <= #[trigger] l.peers[k][i].last_seen by {
        if k == key {
            lemma_filtered(s.peers[k], |p: PeerModel| p.node_id != node_id);
            let p = l.peers[k][i];
            assert(without_node(s.peers[k], node_id).contains(p));
            let j = choose|j: int| 0 <= j < s.peers[k].len() && s.peers[k][j] == p;
            assert(s.first_seen[k] <= s.peers[k][j].last_seen);
        } else {
            assert(s.first_seen[k] <= s.peers[k][i].last_seen);
        }
    }
    let v = s.evicted(now);
    assert forall|k: Seq<char>, i: int|
        v.peers.contains_key(k) && 0 <= i < v.peers[k].len() && v.peers[k][i].last_seen
            >= v.cutoff(now) implies v.first_seen[k] <= #[trigger] v.peers[k][i].last_seen by {
        lemma_filtered(s.peers[k], |p: PeerModel| p.last_seen >= cutoff);
        let p = v.peers[k][i];
        assert(live(s.peers[k], cutoff).contains(p));
        let j = choose|j: int| 0 <= j < s.peers[k].len() && s.peers[k][j] == p;
        assert(s.first_seen[k] <= s.peers[k][j].last_seen);
        assert(s.first_seen.contains_key(k));
    }
    let good = live(s.peers_of(key), cutoff);
    if good.len() > 0 {
        reveal(Seq::filter);
        assert(s.peers.contains_key(key));
        assert(good.contains(good[0]));
        let j = choose|j: int| 0 <= j < s.peers[key].len() && s.peers[key][j] == good[0];
        assert(s.first_seen[key] <= s.peers[key][j].last_seen);
        lemma_latest_bounds(good, 0);
        assert(s.first_seen.contains_key(key));
    }
}

/// `latest` is no earlier than any entry.
proof fn lemma_latest_bounds(s: Seq<PeerModel>, i: int)
    requires
        0 <= i < s.len(),
    ensures
        s[i].last_seen <= latest(s),
    decreases s.len(),
{
    if i < s.len() - 1 {
        lemma_latest_bounds(s.drop_last(), i);
        assert(s.drop_last()[i] == s[i]);
    }
}

/// The store after a client asked to announce at each of `ticks`.
pub open spec fn counted_all(s: StoreModel, client: (u8, u128), ticks: Seq<u128>) -> StoreModel
    decreases ticks.len(),
{
    if ticks.len() == 0 {
        s
    } else {
        counted_all(s, client, ticks.drop_last()).counted(client, ticks.last())
    }
}

/// A client that asks at `ticks`, all less than a minute after the first of them,
/// and had no window before, has exactly its first `rate_limit_per_min` requests
/// granted.
pub proof fn law_rate_limit(s: StoreModel, client: (u8, u128), ticks: Seq<u128>, n: int)
    requires
        0 <= n < ticks.len(),
        !s.rates.contains_key(client),
        forall|i: int|
            0 <= i < ticks.len() ==> #[trigger] ticks[i] - ticks[0] < RATE_WINDOW_NANOS,
    ensures
        counted_all(s, client, ticks.take(n)).may_announce(client, ticks[n]) <==> n
            < s.rate_limit_per_min,
{
    lemma_counted(s, client, ticks, n);
    if n == 0 {
        assert(ticks.take(0) =~= Seq::empty());
    }
}

/// The count of a client after its first `n` requests of one window.
proof fn lemma_counted(s: StoreModel, client: (u8, u128), ticks: Seq<u128>, n: int)
    requires
        0 <= n <= ticks.len(),
        !s.rates.contains_key(client),
        forall|i: int|
            0 <= i < ticks.len() ==> #[trigger] ticks[i] - ticks[0] < RATE_WINDOW_NANOS,
    ensures
        ({
            let after = counted_all(s, client, ticks.take(n));
            &&& after.rate_limit_per_min == s.rate_limit_per_min
            &&& n == 0 ==> after == s
            &&& n > 0 ==> after.rates.contains_key(client) && after.rates[client] == (
                if n < s.rate_limit_per_min {
                    n as u32
                } else {
                    s.rate_limit_per_min
                },
                ticks[0],
            )
        }),
    decreases n,
{
    if n == 0 {
        assert(ticks.take(0) =~= Seq::empty());
    } else {
        lemma_counted(s, client, ticks, n - 1);
        assert(ticks.take(n).drop_last() =~= ticks.take(n - 1));
        assert(ticks.take(n).last() == ticks[n - 1]);
    }
}

/// A client that has a window which began less than sixty seconds ago may announce
/// exactly if it had fewer announces in it than the limit; that is then one more. A
/// request that is refused counts for nothing and moves no window. Any other client
/// starts a window with this request. Nothing else of the store changes.
pub proof fn law_requests_are_counted(s: StoreModel, client: (u8, u128), tick: u128)
    ensures
        ({
            let open = s.rates.contains_key(client) && tick - s.rates[client].1 < 60_000_000_000;
            let after = s.counted(client, tick);
            let used: int = if open {
                s.rates[client].0 as int
            } else {
                0
            };
            &&& s.may_announce(client, tick) <==> used < s.rate_limit_per_min
            &&& after.rates.contains_key(client)
            &&& after.rates[client].0 == used + if s.may_announce(client, tick) {
                1int
            } else {
                0
            }
            &&& after.rates[client].1 == if open {
                s.rates[client].1
            } else {
                tick
            }
            &&& after.rates.remove(client) == s.rates.remove(client)
            &&& after.peers == s.peers
            &&& after.meta == s.meta
            &&& after.first_seen == s.first_seen
            &&& after.ttl_secs == s.ttl_secs
            &&& after.rate_limit_per_min == s.rate_limit_per_min
        }),
{
    assert(s.counted(client, tick).rates.remove(client) =~= s.rates.remove(client));
}

/// Clients with different addresses are counted apart, also an address of one
/// version of the protocol and the same number of the other.
pub proof fn law_clients_are_told_apart(a: ClientAddr, b: ClientAddr)
    requires
        a.bucket_spec() == b.bucket_spec(),
    ensures
        a == b,
{
}

/// A window that is over is forgotten: the next request starts a new one and is
/// granted, unless no announces are allowed at all.
pub proof fn law_rate_window_ends(s: StoreModel, client: (u8, u128), tick: u128)
    requires
        s.rates.contains_key(client),
        tick - s.rates[client].1 >= RATE_WINDOW_NANOS,
    ensures
        s.may_announce(client, tick) <==> s.rate_limit_per_min > 0,
        s.counted(client, tick).rates[client].1 == tick,
{
}

/// The announces of one client do not count against another.
pub proof fn law_rates_are_separate(
    s: StoreModel,
    client: (u8, u128),
    tick: u128,
    other: (u8, u128),
    later: u128,
)
    requires
        other != client,
    ensures
        s.counted(client, tick).may_announce(other, later) == s.may_announce(other, later),
{
}

/// Filters are compared in lower case: a format by the letters of ASCII, a query by
/// those of Unicode; a filter that is not given stays so.
pub proof fn law_filters_are_lowered(text: Seq<char>)
    ensures
        opt_ascii_lower(Some(text)) == Some(ascii_lower(text)),
        opt_ascii_lower(None) is None,
        opt_lowercase(Some(text)) == Some(lowercase(text)),
        opt_lowercase(None) is None,
{
}

/// What the parts of the store are told as is what they hold.
pub proof fn law_views_are_faithful(p: PeerEntry, m: ContentMeta, c: ContentSummary)
    ensures
        p@.node_id == p.node_id@,
        p@.addr_info == p.addr_info@,
        p@.last_seen == p.last_seen,
        m@.filename == opt_view(m.filename),
        m@.format == opt_view(m.format),
        m@.size == m.size,
        c@.content_key == c.content_key@,
        c@.filename == opt_view(c.filename),
        c@.format == opt_view(c.format),
        c@.size == c.size,
        c@.providers == c.providers,
        c@.last_seen == c.last_seen,
        c@.first_seen == c.first_seen,
{
}

} // verus!

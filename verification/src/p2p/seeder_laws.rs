//! Laws of the seed service: what holds between passes over the registry, and what
//! a whole pass does.

use std::path::PathBuf;
use vstd::prelude::*;

use crate::p2p::seeder::{ActionModel, SeedModel, REANNOUNCE_NANOS};

verus! {

/// Whatever is announced is served, at all times: it holds at the start, and every
/// visit, every announce, the end of a pass and the end of the service keep it.
pub proof fn law_announced_is_served(
    m: SeedModel,
    key: Seq<char>,
    path: PathBuf,
    url: Seq<char>,
    gone: bool,
    ok: bool,
    tick: u128,
)
    requires
        m.serves_what_it_announces(),
    ensures
        SeedModel::empty().serves_what_it_announces(),
        m.visited(key, path, url, gone, tick).serves_what_it_announces(),
        m.announced(ok, tick).serves_what_it_announces(),
        m.finished().serves_what_it_announces(),
        m.stopped().serves_what_it_announces(),
{
}

/// A seed that is gone is neither served nor known to a tracker any more, whether
/// or not a tracker ever took its announce; a tracker that did is left.
pub proof fn law_gone_seed_is_dropped(
    m: SeedModel,
    key: Seq<char>,
    path: PathBuf,
    url: Seq<char>,
    tick: u128,
)
    ensures
        !m.visited(key, path, url, true, tick).files.contains_key(key),
        !m.visited(key, path, url, true, tick).active.contains_key(key),
        m.action(key, url, true, tick) == ActionModel::Drop(
            if m.active.contains_key(key) {
                Some((key, url))
            } else {
                None
            },
        ),
{
}

/// A live manifest is served at once, before any tracker knows of it.
pub proof fn law_live_seed_is_served(
    m: SeedModel,
    key: Seq<char>,
    path: PathBuf,
    url: Seq<char>,
    tick: u128,
)
    ensures
        m.visited(key, path, url, false, tick).files.contains_key(key),
        m.visited(key, path, url, false, tick).files[key] == path,
{
}

/// The visit of one manifest touches no other key.
pub proof fn law_other_seeds_stay(
    m: SeedModel,
    key: Seq<char>,
    other: Seq<char>,
    path: PathBuf,
    url: Seq<char>,
    gone: bool,
    ok: bool,
    tick: u128,
    later: u128,
)
    requires
        other != key,
    ensures
        ({
            let n = m.visited(key, path, url, gone, tick).announced(ok, later);
            &&& n.files.contains_key(other) == m.files.contains_key(other)
            &&& m.files.contains_key(other) ==> n.files[other] == m.files[other]
            &&& n.active.contains_key(other) == m.active.contains_key(other)
            &&& m.active.contains_key(other) ==> n.active[other] == m.active[other]
        }),
{
}

/// A seed that a tracker took is not announced again until five minutes later, and
/// is announced then.
pub proof fn law_announce_rhythm(
    m: SeedModel,
    key: Seq<char>,
    path: PathBuf,
    url: Seq<char>,
    tick: u128,
    taken: u128,
    later: u128,
)
    requires
        m.is_due(key, tick),
    ensures
        ({
            let n = m.visited(key, path, url, false, tick).announced(true, taken);
            &&& n.active.contains_key(key)
            &&& n.active[key].last_announce == taken
            &&& later < taken + REANNOUNCE_NANOS ==> n.action(key, url, false, later)
                == ActionModel::Keep
            &&& later >= taken + REANNOUNCE_NANOS ==> n.action(key, url, false, later)
                == ActionModel::Announce((key, url))
        }),
{
}

/// A live seed is announced exactly if no tracker knows of it or 300 seconds have
/// passed since one took it, to the tracker of its manifest; otherwise nothing is done
/// about it. A visit announces nothing by itself: what trackers know changes by what
/// comes of the announce only, and by a seed that is gone.
pub proof fn law_when_a_seed_is_announced(
    m: SeedModel,
    key: Seq<char>,
    path: PathBuf,
    url: Seq<char>,
    tick: u128,
)
    ensures
        ({
            let due = !m.active.contains_key(key) || tick - m.active[key].last_announce
                >= 300_000_000_000;
            let after = m.visited(key, path, url, false, tick);
            &&& m.action(key, url, false, tick) == if due {
                ActionModel::Announce((key, url))
            } else {
                ActionModel::Keep
            }
            &&& after.active == m.active
            &&& after.pending == if due {
                Some((key, url))
            } else {
                None
            }
            &&& after.seen == m.seen.insert(key)
            &&& after.files == m.files.insert(key, path)
        }),
{
}

/// An announce that a tracker took makes its seed active as of then, with the tracker
/// that took it first; one that failed changes nothing. Neither touches a file, what
/// was seen, or another seed.
pub proof fn law_what_an_announce_does(
    m: SeedModel,
    key: Seq<char>,
    url: Seq<char>,
    ok: bool,
    tick: u128,
)
    requires
        m.pending == Some((key, url)),
    ensures
        ({
            let after = m.announced(ok, tick);
            &&& after.pending is None
            &&& after.files == m.files
            &&& after.seen == m.seen
            &&& after.active.remove(key) == m.active.remove(key)
            &&& !ok ==> after.active == m.active
            &&& ok ==> after.active.contains_key(key) && after.active[key].last_announce == tick
                && after.active[key].tracker_url == if m.active.contains_key(key) {
                m.active[key].tracker_url
            } else {
                url
            }
        }),
{
    assert(m.announced(ok, tick).active.remove(key) =~= m.active.remove(key));
}

/// At the end of a pass exactly the trackers of the active seeds without a manifest
/// are left, each with the key that it knows; what was seen stays as it is, served and
/// active.
pub proof fn law_end_of_a_pass(m: SeedModel, key: Seq<char>, url: Seq<char>)
    ensures
        ({
            let after = m.finished();
            &&& m.is_leaving((key, url)) <==> m.active.contains_key(key) && !m.seen.contains(key)
                && url == m.active[key].tracker_url
            &&& after.active.contains_key(key) <==> m.active.contains_key(key) && m.seen.contains(
                key,
            )
            &&& after.active.contains_key(key) ==> after.active[key] == m.active[key]
            &&& after.files.contains_key(key) <==> m.files.contains_key(key) && m.seen.contains(key)
            &&& after.files.contains_key(key) ==> after.files[key] == m.files[key]
            &&& !after.seen.contains(key)
            &&& after.pending is None
        }),
{
}

/// A service that stops is known to no tracker any more, and serves its files until it
/// is gone.
pub proof fn law_stopped_service(m: SeedModel, key: Seq<char>)
    ensures
        !m.stopped().active.contains_key(key),
        m.stopped().files == m.files,
        m.stopped().seen == m.seen,
        m.stopped().pending == m.pending,
{
}

/// A seed whose announce failed is announced again by the next visit.
pub proof fn law_failed_announce_is_repeated(
    m: SeedModel,
    key: Seq<char>,
    path: PathBuf,
    url: Seq<char>,
    tick: u128,
    failed: u128,
    later: u128,
)
    requires
        m.is_due(key, tick),
        later >= tick,
    ensures
        m.visited(key, path, url, false, tick).announced(false, failed).action(
            key,
            url,
            false,
            later,
        ) == ActionModel::Announce((key, url)),
{
}

/// The visit of a manifest: its key, file and tracker, whether it is gone, when it
/// was visited, and, where it was announced, whether the tracker took that, and
/// when.
pub struct Visit {
    pub key: Seq<char>,
    pub path: PathBuf,
    pub url: Seq<char>,
    pub gone: bool,
    pub tick: u128,
    pub ok: bool,
    pub taken: u128,
}

/// The state after these visits, each with its announce.
pub open spec fn after_visits(m: SeedModel, visits: Seq<Visit>) -> SeedModel
    decreases visits.len(),
{
    if visits.len() == 0 {
        m
    } else {
        let v = visits.last();
        after_visits(m, visits.drop_last()).visited(v.key, v.path, v.url, v.gone, v.tick).announced(
            v.ok,
            v.taken,
        )
    }
}

/// The last visit of a key.
pub open spec fn last_visit(visits: Seq<Visit>, key: Seq<char>) -> Option<Visit>
    decreases visits.len(),
{
    if visits.len() == 0 {
        None
    } else if visits.last().key == key {
        Some(visits.last())
    } else {
        last_visit(visits.drop_last(), key)
    }
}

/// The key has a live manifest: its last visit of the pass found it neither expired
/// nor without its file.
pub open spec fn is_live(visits: Seq<Visit>, key: Seq<char>) -> bool {
    last_visit(visits, key) matches Some(v) && !v.gone
}

/// After a whole pass, what is served is exactly what has a live manifest, each key
/// from the file of its manifest, and a tracker knows of nothing else: whatever
/// expired, lost its file or lost its manifest is neither served nor active, also
/// where no tracker ever took its announce. A key that the pass visits twice counts
/// as its last visit.
pub proof fn law_pass_follows_the_registry(m: SeedModel, visits: Seq<Visit>)
    requires
        m.seen == Set::<Seq<char>>::empty(),
        m.serves_what_it_announces(),
    ensures
        ({
            let n = after_visits(m, visits).finished();
            &&& forall|k: Seq<char>| #[trigger] n.files.contains_key(k) <==> is_live(visits, k)
            &&& forall|k: Seq<char>| #[trigger]
                n.files.contains_key(k) ==> n.files[k] == last_visit(visits, k)->0.path
            &&& forall|k: Seq<char>| #[trigger] n.active.contains_key(k) ==> is_live(visits, k)
            &&& n.seen == Set::<Seq<char>>::empty()
        }),
{
    let n = after_visits(m, visits).finished();
    assert forall|k: Seq<char>| #[trigger] n.files.contains_key(k) <==> is_live(visits, k) by {
        lemma_after_visits(m, visits, k);
    }
    assert forall|k: Seq<char>| #[trigger] n.files.contains_key(k) implies n.files[k]
        == last_visit(visits, k)->0.path by {
        lemma_after_visits(m, visits, k);
    }
    assert forall|k: Seq<char>| #[trigger] n.active.contains_key(k) implies is_live(visits, k) by {
        lemma_after_visits(m, visits, k);
    }
}

/// What the visits so far have done for a key.
proof fn lemma_after_visits(m: SeedModel, visits: Seq<Visit>, key: Seq<char>)
    requires
        m.seen == Set::<Seq<char>>::empty(),
    ensures
        ({
            let n = after_visits(m, visits);
            &&& n.seen.contains(key) <==> last_visit(visits, key) is Some
            &&& last_visit(visits, key) matches Some(v) ==> if v.gone {
                !n.files.contains_key(key) && !n.active.contains_key(key)
            } else {
                n.files.contains_key(key) && n.files[key] == v.path
            }
        }),
    decreases visits.len(),
{
    if visits.len() > 0 {
        lemma_after_visits(m, visits.drop_last(), key);
    }
}

/// A pass that visits nothing ends everything: without manifests nothing is served
/// or announced any more.
pub proof fn law_empty_registry_ends_all(m: SeedModel, key: Seq<char>)
    requires
        m.seen == Set::<Seq<char>>::empty(),
    ensures
        !m.finished().active.contains_key(key),
        !m.finished().files.contains_key(key),
{
}

} // verus!

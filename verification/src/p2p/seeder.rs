//! The seed service: which files a peer serves, and what it tells the trackers,
//! as the registry changes.
//!
//! The registry is reconciled in passes. A pass visits every manifest, performs
//! the action that the visit asks for, reports what came of an announce, and is
//! then finished.

use dashmap::DashMap;
use std::path::PathBuf;
use std::time::Instant;
use vstd::hash_map::StringHashMap;
use vstd::hash_set::StringHashSet;
use vstd::prelude::*;

use crate::clock::nanos_since;
use crate::p2p::files::{file_table, files_drop, files_get, files_keys, files_new, files_put};
use crate::p2p::registry::{is_expired_at, now_unix, SeedManifest};
use crate::text::views;

verus! {

/// How many seconds pass between two passes over the registry.
pub const RECONCILE_INTERVAL_SECS: u64 = 30;

/// How many nanoseconds pass before a live seed is announced again: five minutes.
pub const REANNOUNCE_NANOS: u128 = 300_000_000_000;

/// A seed that a tracker knows of: the tracker, and when it was last announced, in
/// nanoseconds since the service started.
pub struct ActiveSeed {
    pub tracker_url: String,
    pub last_announce: u128,
}

/// What is known of a seed that a tracker knows of.
pub struct ActiveModel {
    pub tracker_url: Seq<char>,
    pub last_announce: u128,
}

impl View for ActiveSeed {
    type V = ActiveModel;

    open spec fn view(&self) -> ActiveModel {
        ActiveModel { tracker_url: self.tracker_url@, last_announce: self.last_announce }
    }
}

/// A key, and the tracker to tell something about it.
pub struct Contact {
    pub key: String,
    pub tracker_url: String,
}

impl View for Contact {
    type V = (Seq<char>, Seq<char>);

    open spec fn view(&self) -> (Seq<char>, Seq<char>) {
        (self.key@, self.tracker_url@)
    }
}

/// The contacts of a list.
pub open spec fn contact_views(v: Seq<Contact>) -> Seq<(Seq<char>, Seq<char>)> {
    v.map_values(|c: Contact| c@)
}

/// What is to be done about a manifest.
pub enum SeedAction {
    /// Remove the manifest, and leave the tracker where one knows of the seed.
    Drop(Option<Contact>),
    /// Announce the seed, and report what came of it.
    Announce(Contact),
    /// Nothing.
    Keep,
}

/// What is to be done about a manifest.
pub enum ActionModel {
    Drop(Option<(Seq<char>, Seq<char>)>),
    Announce((Seq<char>, Seq<char>)),
    Keep,
}

impl View for SeedAction {
    type V = ActionModel;

    open spec fn view(&self) -> ActionModel {
        match self {
            SeedAction::Drop(None) => ActionModel::Drop(None),
            SeedAction::Drop(Some(c)) => ActionModel::Drop(Some(c@)),
            SeedAction::Announce(c) => ActionModel::Announce(c@),
            SeedAction::Keep => ActionModel::Keep,
        }
    }
}

/// The state of the seed service.
#[verifier::ext_equal]
pub struct SeedModel {
    /// The files that are served, by content key.
    pub files: Map<Seq<char>, PathBuf>,
    /// The seeds that trackers know of, by content key.
    pub active: Map<Seq<char>, ActiveModel>,
    /// The keys of the manifests that the running pass has visited.
    pub seen: Set<Seq<char>>,
    /// The key and the tracker of the announce that is under way.
    pub pending: Option<(Seq<char>, Seq<char>)>,
}

impl SeedModel {
    /// The state of a service that has just started.
    pub open spec fn empty() -> SeedModel {
        SeedModel {
            files: Map::empty(),
            active: Map::empty(),
            seen: Set::empty(),
            pending: None,
        }
    }

    /// The seed of this key is to be announced at `tick`: no tracker knows of it,
    /// or it was announced long enough ago.
    pub open spec fn is_due(self, key: Seq<char>, tick: u128) -> bool {
        !self.active.contains_key(key) || tick - self.active[key].last_announce >= REANNOUNCE_NANOS
    }

    /// The state after the visit of a manifest with this key, file and tracker,
    /// which is gone where it is expired or its file is missing.
    pub open spec fn visited(
        self,
        key: Seq<char>,
        path: PathBuf,
        url: Seq<char>,
        gone: bool,
        tick: u128,
    ) -> SeedModel {
        if gone {
            SeedModel {
                files: self.files.remove(key),
                active: self.active.remove(key),
                seen: self.seen.insert(key),
                pending: None,
            }
        } else {
            SeedModel {
                files: self.files.insert(key, path),
                active: self.active,
                seen: self.seen.insert(key),
                pending: if self.is_due(key, tick) {
                    Some((key, url))
                } else {
                    None
                },
            }
        }
    }

    /// What the visit of a manifest asks for.
    pub open spec fn action(
        self,
        key: Seq<char>,
        url: Seq<char>,
        gone: bool,
        tick: u128,
    ) -> ActionModel {
        if gone {
            ActionModel::Drop(
                if self.active.contains_key(key) {
                    Some((key, url))
                } else {
                    None
                },
            )
        } else if self.is_due(key, tick) {
            ActionModel::Announce((key, url))
        } else {
            ActionModel::Keep
        }
    }

    /// The state after the announce that was under way, which the tracker took or
    /// not, at `tick`.
    pub open spec fn announced(self, ok: bool, tick: u128) -> SeedModel {
        match self.pending {
            Some((key, url)) if ok => SeedModel {
                active: self.active.insert(
                    key,
                    ActiveModel {
                        tracker_url: if self.active.contains_key(key) {
                            self.active[key].tracker_url
                        } else {
                            url
                        },
                        last_announce: tick,
                    },
                ),
                pending: None,
                ..self
            },
            _ => SeedModel { pending: None, ..self },
        }
    }

    /// A tracker knows of the seed, and the pass did not visit a manifest of it.
    pub open spec fn is_stale(self, key: Seq<char>) -> bool {
        self.active.contains_key(key) && !self.seen.contains(key)
    }

    /// The state at the end of a pass: what has no manifest any more is neither
    /// served nor active.
    pub open spec fn finished(self) -> SeedModel {
        SeedModel {
            files: self.files.restrict(self.seen),
            active: self.active.restrict(self.seen),
            seen: Set::empty(),
            pending: None,
        }
    }

    /// The trackers to leave at the end of a pass, each with its key.
    pub open spec fn is_leaving(self, contact: (Seq<char>, Seq<char>)) -> bool {
        self.is_stale(contact.0) && contact.1 == self.active[contact.0].tracker_url
    }

    /// Every seed that a tracker knows of, or is about to know of, is served.
    pub open spec fn serves_what_it_announces(self) -> bool {
        &&& forall|k: Seq<char>| #[trigger]
            self.active.contains_key(k) ==> self.files.contains_key(k)
        &&& self.pending matches Some(p) ==> self.files.contains_key(p.0)
    }

    /// The state after the service has stopped.
    pub open spec fn stopped(self) -> SeedModel {
        SeedModel { active: Map::empty(), ..self }
    }
}

/// What is known of the seeds of a table.
spec fn models(active: Map<Seq<char>, ActiveSeed>) -> Map<Seq<char>, ActiveModel> {
    active.map_values(|s: ActiveSeed| s@)
}

/// The seed service's account of what it serves and announces.
pub struct SeedTable {
    files: DashMap<String, PathBuf>,
    active: StringHashMap<ActiveSeed>,
    seen: StringHashSet,
    pending: Option<Contact>,
    started: Instant,
}

impl View for SeedTable {
    type V = SeedModel;

    closed spec fn view(&self) -> SeedModel {
        SeedModel {
            files: file_table(self.files),
            active: models(self.active@),
            seen: self.seen@,
            pending: match self.pending {
                Some(c) => Some(c@),
                None => None,
            },
        }
    }
}

impl SeedTable {
    /// What is announced is served.
    pub open spec fn wf(&self) -> bool {
        self@.serves_what_it_announces()
    }

    /// The account of a service that has just started.
    pub fn new() -> (table: SeedTable)
        ensures
            table.wf(),
            table@ == SeedModel::empty(),
    {
        let table = SeedTable {
            files: files_new(),
            active: StringHashMap::new(),
            seen: StringHashSet::new(),
            pending: None,
            started: Instant::now(),
        };
        assert(table@ =~= SeedModel::empty());
        table
    }

    /// The file that is served under a key.
    pub fn lookup(&self, key: &str) -> (path: Option<PathBuf>)
        ensures
            match path {
                Some(p) => self@.files.contains_key(key@) && p == self@.files[key@],
                None => !self@.files.contains_key(key@),
            },
    {
        files_get(&self.files, key)
    }

    /// The nanoseconds since the service started.
    fn tick(&self) -> (nanos: u128) {
        nanos_since(&self.started)
    }

    /// Visits a manifest, whose file is present or not, as of second `now` and
    /// `tick` nanoseconds after the start.
    pub fn visit_at(
        &mut self,
        manifest: SeedManifest,
        present: bool,
        now: u64,
        tick: u128,
    ) -> (action: SeedAction)
        requires
            old(self).wf(),
        ensures
            final(self).wf(),
            final(self)@ == old(self)@.visited(
                manifest.content_key@,
                manifest.file_path,
                manifest.tracker_url@,
                is_expired_at(manifest.expiry_unix, now) || !present,
                tick,
            ),
            action@ == old(self)@.action(
                manifest.content_key@,
                manifest.tracker_url@,
                is_expired_at(manifest.expiry_unix, now) || !present,
                tick,
            ),
    {
        let ghost before = self@;
        let gone = manifest.expired_at(now) || !present;
        let SeedManifest { content_key, file_path, tracker_url, expiry_unix: _ } = manifest;
        self.seen.insert(content_key.clone());
        self.pending = None;
        if gone {
            // Whether or not a tracker ever took the announce, the file is served
            // no longer.
            files_drop(&mut self.files, content_key.as_str());
            let known = self.active.contains_key(content_key.as_str());
            self.active.remove(content_key.as_str());
            let ghost key = content_key@;
            assert(models(self.active@) =~= before.active.remove(key));
            assert(self@ =~= before.visited(key, file_path, tracker_url@, gone, tick));
            return SeedAction::Drop(
                if known {
                    Some(Contact { key: content_key, tracker_url })
                } else {
                    None
                },
            );
        }
        files_put(&mut self.files, content_key.clone(), file_path);
        let due = match self.active.get(content_key.as_str()) {
            Some(seed) => tick.saturating_sub(seed.last_announce) >= REANNOUNCE_NANOS,
            None => true,
        };
        if due {
            self.pending = Some(
                Contact { key: content_key.clone(), tracker_url: tracker_url.clone() },
            );
            assert(self@ =~= before.visited(content_key@, file_path, tracker_url@, gone, tick));
            SeedAction::Announce(Contact { key: content_key, tracker_url })
        } else {
            assert(self@ =~= before.visited(content_key@, file_path, tracker_url@, gone, tick));
            SeedAction::Keep
        }
    }

    /// Visits a manifest, whose file is present or not.
    pub fn visit(&mut self, manifest: SeedManifest, present: bool) -> (action: SeedAction)
        requires
            old(self).wf(),
        ensures
            final(self).wf(),
            exists|now: u64, tick: u128| #[trigger]
                is_visit(old(self)@, final(self)@, action@, manifest, present, now, tick),
    {
        let now = now_unix();
        let tick = self.tick();
        let ghost before = self@;
        let action = self.visit_at(manifest, present, now, tick);
        assert(is_visit(before, self@, action@, manifest, present, now, tick));
        action
    }

    /// Reports what came of the announce that was asked for, `tick` nanoseconds
    /// after the start.
    pub fn announced_at(&mut self, ok: bool, tick: u128)
        requires
            old(self).wf(),
        ensures
            final(self).wf(),
            final(self)@ == old(self)@.announced(ok, tick),
    {
        let ghost before = self@;
        let pending = self.pending.take();
        if let Some(contact) = pending {
            if ok {
                let tracker_url = match self.active.get(contact.key.as_str()) {
                    Some(seed) => seed.tracker_url.clone(),
                    None => contact.tracker_url,
                };
                let seed = ActiveSeed { tracker_url, last_announce: tick };
                let ghost key = contact.key@;
                self.active.insert(contact.key, seed);
                assert(models(self.active@) =~= before.active.insert(key, seed@));
            }
        }
        assert(self@ =~= before.announced(ok, tick));
    }

    /// Reports what came of the announce that was asked for.
    pub fn announced(&mut self, ok: bool)
        requires
            old(self).wf(),
        ensures
            final(self).wf(),
            exists|tick: u128| final(self)@ == #[trigger] old(self)@.announced(ok, tick),
    {
        let tick = self.tick();
        self.announced_at(ok, tick);
    }

    /// Ends a pass: what has no manifest any more is served no longer. Returns the
    /// trackers to leave, each with its key.
    pub fn finish(&mut self) -> (leaves: Vec<Contact>)
        requires
            old(self).wf(),
        ensures
            final(self).wf(),
            final(self)@ == old(self)@.finished(),
            contact_views(leaves@).no_duplicates(),
            forall|c: (Seq<char>, Seq<char>)| #[trigger]
                contact_views(leaves@).contains(c) <==> old(self)@.is_leaving(c),
    {
        let ghost before = self@;
        let keys = files_keys(&self.files);
        let ghost names = views(keys@);
        let ghost mut done: Set<Seq<char>> = Set::empty();
        let ghost mut left: Set<Seq<char>> = Set::empty();
        let mut leaves: Vec<Contact> = Vec::new();
        self.pending = None;
        assert(self@.active =~= before.active.remove_keys(done));
        assert(self@.files =~= before.files.remove_keys(done));
        for n in 0..keys.len()
            invariant
                names == views(keys@),
                names.no_duplicates(),
                names.to_set() == before.files.dom(),
                before.serves_what_it_announces(),
                self@.seen == before.seen,
                self@.pending is None,
                self@.active == before.active.remove_keys(done),
                self@.files == before.files.remove_keys(done),
                forall|k: Seq<char>| #[trigger] done.contains(k) ==> !before.seen.contains(k),
                forall|m: int|
                    0 <= m < n && !before.seen.contains(#[trigger] names[m]) ==> done.contains(
                        names[m],
                    ),
                forall|m: int| n <= m < names.len() ==> !done.contains(#[trigger] names[m]),
                forall|k: Seq<char>| #[trigger]
                    left.contains(k) <==> done.contains(k) && before.active.contains_key(k),
                is_leave_list(contact_views(leaves@), before, left),
        {
            let ghost key = names[n as int];
            assert(keys@[n as int]@ == key);
            if !self.seen.contains(keys[n].as_str()) {
                let ghost known = self@.active;
                if let Some(seed) = self.active.get(keys[n].as_str()) {
                    let contact = Contact {
                        key: keys[n].clone(),
                        tracker_url: seed.tracker_url.clone(),
                    };
                    let ghost listed = contact_views(leaves@);
                    leaves.push(contact);
                    proof {
                        assert(known.contains_key(key) && known[key] == seed@);
                        assert(contact_views(leaves@) =~= listed.push(contact@));
                        lemma_leave_list_push(listed, before, left, contact@);
                        left = left.insert(key);
                    }
                }
                files_drop(&mut self.files, keys[n].as_str());
                self.active.remove(keys[n].as_str());
                proof {
                    let next = done.insert(key);
                    assert(self@.active =~= known.remove(key));
                    assert(self@.active =~= before.active.remove_keys(next));
                    assert(self@.files =~= before.files.remove_keys(next));
                    done = next;
                }
            }
        }
        proof {
            assert forall|k: Seq<char>| #[trigger] before.files.contains_key(
                k,
            ) implies done.contains(k) == !before.seen.contains(k) by {
                assert(names.to_set().contains(k));
                let m = choose|m: int| 0 <= m < names.len() && names[m] == k;
                assert(names[m] == k);
            }
            assert forall|c: (Seq<char>, Seq<char>)| #[trigger]
                contact_views(leaves@).contains(c) <==> before.is_leaving(c) by {
                if before.active.contains_key(c.0) {
                    assert(before.files.contains_key(c.0));
                }
            }
        }
        self.seen.clear();
        proof {
            assert(self@.active =~= before.finished().active) by {
                assert forall|k: Seq<char>| #[trigger] before.active.contains_key(
                    k,
                ) implies before.files.contains_key(k) by {}
            }
            assert(self@.files =~= before.finished().files);
            assert(self@ =~= before.finished());
        }
        leaves
    }

    /// Stops the service. Returns the trackers to leave, each with its key, so that
    /// peers stop being handed a node that is about to disappear.
    pub fn shut_down(&mut self) -> (leaves: Vec<Contact>)
        requires
            old(self).wf(),
        ensures
            final(self).wf(),
            final(self)@ == old(self)@.stopped(),
            contact_views(leaves@).no_duplicates(),
            forall|c: (Seq<char>, Seq<char>)| #[trigger]
                contact_views(leaves@).contains(c) <==> old(self)@.active.contains_key(c.0) && c.1
                    == old(self)@.active[c.0].tracker_url,
    {
        let ghost before = self@;
        let keys = files_keys(&self.files);
        let ghost names = views(keys@);
        let ghost mut left: Set<Seq<char>> = Set::empty();
        let mut leaves: Vec<Contact> = Vec::new();
        for n in 0..keys.len()
            invariant
                names == views(keys@),
                names.no_duplicates(),
                self@ == before,
                forall|m: int|
                    0 <= m < n && before.active.contains_key(#[trigger] names[m])
                        ==> left.contains(names[m]),
                forall|k: Seq<char>| #[trigger]
                    left.contains(k) ==> before.active.contains_key(k) && exists|m: int|
                        0 <= m < n && names[m] == k,
                is_leave_list(contact_views(leaves@), before, left),
        {
            let ghost key = names[n as int];
            assert(keys@[n as int]@ == key);
            if let Some(seed) = self.active.get(keys[n].as_str()) {
                let contact = Contact {
                    key: keys[n].clone(),
                    tracker_url: seed.tracker_url.clone(),
                };
                let ghost listed = contact_views(leaves@);
                leaves.push(contact);
                proof {
                    assert(contact_views(leaves@) =~= listed.push(contact@));
                    lemma_leave_list_push(listed, before, left, contact@);
                    left = left.insert(key);
                }
            }
        }
        proof {
            assert forall|c: (Seq<char>, Seq<char>)| #[trigger]
                contact_views(leaves@).contains(c) <==> before.active.contains_key(c.0) && c.1
                == before.active[c.0].tracker_url by {
                if before.active.contains_key(c.0) {
                    assert(before.files.contains_key(c.0));
                    assert(names.to_set().contains(c.0));
                    let m = choose|m: int| 0 <= m < names.len() && names[m] == c.0;
                    assert(left.contains(names[m]));
                }
            }
        }
        self.active.clear();
        assert(models(self.active@) =~= Map::<Seq<char>, ActiveModel>::empty());
        assert(self@ =~= before.stopped());
        leaves
    }
}

/// The visit of a manifest as of second `now` and `tick` nanoseconds after the
/// start.
pub open spec fn is_visit(
    before: SeedModel,
    after: SeedModel,
    action: ActionModel,
    manifest: SeedManifest,
    present: bool,
    now: u64,
    tick: u128,
) -> bool {
    let gone = is_expired_at(manifest.expiry_unix, now) || !present;
    &&& after == before.visited(
        manifest.content_key@,
        manifest.file_path,
        manifest.tracker_url@,
        gone,
        tick,
    )
    &&& action == before.action(manifest.content_key@, manifest.tracker_url@, gone, tick)
}

/// The contacts are the seeds of the keys in `left`, each with its tracker, once.
spec fn is_leave_list(
    contacts: Seq<(Seq<char>, Seq<char>)>,
    m: SeedModel,
    left: Set<Seq<char>>,
) -> bool {
    &&& contacts.no_duplicates()
    &&& forall|c: (Seq<char>, Seq<char>)| #[trigger]
        contacts.contains(c) <==> left.contains(c.0) && c.1 == m.active[c.0].tracker_url
}

/// One more contact, of a key that is not among them.
proof fn lemma_leave_list_push(
    contacts: Seq<(Seq<char>, Seq<char>)>,
    m: SeedModel,
    left: Set<Seq<char>>,
    c: (Seq<char>, Seq<char>),
)
    requires
        is_leave_list(contacts, m, left),
        !left.contains(c.0),
        c.1 == m.active[c.0].tracker_url,
    ensures
        is_leave_list(contacts.push(c), m, left.insert(c.0)),
{
    let all = contacts.push(c);
    assert(!contacts.contains(c));
    assert(all.no_duplicates()) by {
        assert forall|i: int, j: int| 0 <= i < all.len() && 0 <= j < all.len() && i != j implies all[i]
            != all[j] by {
            if i == contacts.len() && all[j] == c {
                assert(contacts[j] == c);
            }
            if j == contacts.len() && all[i] == c {
                assert(contacts[i] == c);
            }
        }
    }
    assert forall|d: (Seq<char>, Seq<char>)| #[trigger] all.contains(d) <==> left.insert(
        c.0,
    ).contains(d.0) && d.1 == m.active[d.0].tracker_url by {
        if all.contains(d) {
            let i = choose|i: int| 0 <= i < all.len() && all[i] == d;
            if i < contacts.len() {
                assert(contacts[i] == d);
                assert(contacts.contains(d));
            }
        }
        if left.insert(c.0).contains(d.0) && d.1 == m.active[d.0].tracker_url {
            if d.0 == c.0 {
                assert(all[contacts.len() as int] == d);
            } else {
                assert(contacts.contains(d));
                let i = choose|i: int| 0 <= i < contacts.len() && contacts[i] == d;
                assert(all[i] == d);
            }
        }
    }
}

} // verus!

//! The table of the files that a peer serves.
//!
//! The table is a `dashmap::DashMap`, reached through the functions of this module
//! alone; one that changes it borrows it mutably, so it never changes under a
//! reader.

use dashmap::DashMap;
use std::path::PathBuf;
use vstd::prelude::*;

use crate::text::views;

verus! {

/// The file that a table holds under each content key.
pub uninterp spec fn file_table(t: DashMap<String, PathBuf>) -> Map<Seq<char>, PathBuf>;

/// `DashMap::new` makes an empty table.
#[verifier::external_body]
pub(crate) fn files_new() -> (t: DashMap<String, PathBuf>)
    ensures
        file_table(t) == (Map::<Seq<char>, PathBuf>::empty()),
{
    DashMap::new()
}

/// `DashMap::get` finds the file under a key; a copy of its path is handed out.
#[verifier::external_body]
pub(crate) fn files_get(t: &DashMap<String, PathBuf>, key: &str) -> (found: Option<PathBuf>)
    ensures
        match found {
            Some(path) => file_table(*t).contains_key(key@) && path == file_table(*t)[key@],
            None => !file_table(*t).contains_key(key@),
        },
{
    t.get(key).map(|entry| entry.value().clone())
}

/// `DashMap::insert` puts a file under a key, in place of one that stood there.
#[verifier::external_body]
pub(crate) fn files_put(t: &mut DashMap<String, PathBuf>, key: String, path: PathBuf)
    ensures
        file_table(*final(t)) == file_table(*old(t)).insert(key@, path),
{
    t.insert(key, path);
}

/// `DashMap::remove` takes a key and its file out; other keys stay.
#[verifier::external_body]
pub(crate) fn files_drop(t: &mut DashMap<String, PathBuf>, key: &str)
    ensures
        file_table(*final(t)) == file_table(*old(t)).remove(key@),
{
    t.remove(key);
}

/// `DashMap::iter` visits every entry once, in an order that is not fixed; the
/// keys are handed out.
#[verifier::external_body]
pub(crate) fn files_keys(t: &DashMap<String, PathBuf>) -> (keys: Vec<String>)
    ensures
        views(keys@).no_duplicates(),
        views(keys@).to_set() == file_table(*t).dom(),
{
    t.iter().map(|entry| entry.key().clone()).collect()
}

} // verus!

//! Where files belong, as a directory to start from and the names below it.

use std::path::PathBuf;
use vstd::prelude::*;

use crate::text::views;

verus! {

/// A path of the machine, which the library only carries along.
#[verifier::external_type_specification]
#[verifier::external_body]
pub struct ExPathBuf(PathBuf);

/// `PathBuf::clone` of std gives a duplicate of the path.
pub assume_specification[ <PathBuf as Clone>::clone ](path: &PathBuf) -> (copy: PathBuf)
    ensures
        copy == *path,
;

/// The directory that a place is below.
pub enum Base {
    /// A directory that is known as a path.
    Dir(PathBuf),
    /// The directory `/tmp`.
    Tmp,
    /// The directory that the machine names for temporary files.
    MachineTemp,
}

/// A place below a directory: the names are to be joined to the base one by one.
pub struct Place {
    pub base: Base,
    pub names: Vec<String>,
}

impl Place {
    /// The place is reached from `base` by `names`.
    pub open spec fn is(self, base: Base, names: Seq<Seq<char>>) -> bool {
        self.base == base && views(self.names@) == names
    }
}

} // verus!

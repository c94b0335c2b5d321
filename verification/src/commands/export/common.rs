//! What the writers share: the position inside the document, and the
//! path rendering with the home directory folded away.
use vstd::prelude::*;

use crate::utils::{replace_all, replaced_from};

verus! {

/// Where a writer stands in the document; the separators between the
/// three lists depend on it.
#[derive(PartialEq, Eq, Structural, Clone, Copy, Debug)]
pub enum Status {
    Before,
    Header,
    Repository,
    Group,
    Relation,
    Footer,
}

/// How a writer renders paths: verbatim, or with the home directory
/// replaced by a placeholder.
pub enum PathMap {
    Plain,
    Home(String, String),
}

/// Renders one path under the writer's path policy.
pub fn map_path(p: &str, mapper: &PathMap) -> (r: String)
    ensures
        mapper is Plain ==> r@ == p@,
        mapper matches PathMap::Home(from, to) ==> r@ == replaced_from(p@, from@, to@, 0),
{
    match mapper {
        PathMap::Plain => p.to_owned(),
        PathMap::Home(from, to) => replace_all(p, from.as_str(), to.as_str()),
    }
}

} // verus!

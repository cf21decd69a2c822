//! Core of a package-search chat bot: command parsing, handler dispatch,
//! HTML-escaped reply rendering with entry and length caps, and the unified
//! error type. Network transports, search backends and the usage tracker are
//! external collaborators reached only through the interfaces declared here.

use vstd::prelude::*;

pub mod crates;
pub mod error;
pub mod godoc;
pub mod telegram;

verus! {

use crate::error::Error;

/// A normalized search result record, independent of which backend produced it.
pub struct Package {
    pub name: String,
    pub repository: Option<String>,
    pub documentation: Option<String>,
    pub description: Option<String>,
}

impl Package {
    /// A record with an empty name and no links; fields are filled in by the
    /// backend-specific row parsers.
    pub fn empty() -> (p: Package)
        ensures
            p.name@ == Seq::<char>::empty(),
            p.repository is None,
            p.documentation is None,
            p.description is None,
    {
        Package {
            name: String::new(),
            repository: None,
            documentation: None,
            description: None,
        }
    }
}

/// A pluggable search backend: one instance per supported package ecosystem.
/// Implementations must guarantee that every returned package has a non-empty
/// name.
pub trait SearchRepo {
    fn search(&self, query: &str) -> (r: Result<Vec<Package>, Error>)
        ensures
            r matches Ok(pkgs) ==> forall|i: int|
                0 <= i < pkgs@.len() ==> #[trigger] pkgs@[i].name@.len() > 0,
    ;
}

} // verus!

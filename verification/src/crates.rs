//! The crates.io search backend's data model: the decoded API records and
//! their conversion to the normalized [`Package`] form. Issuing the HTTP
//! request and decoding the JSON payload into these records is transport
//! work and stays with the caller.

use vstd::prelude::*;

verus! {

use crate::Package;

/// One crate record as the registry's search API returns it.
#[derive(Clone)]
pub struct EncodableCrate {
    pub id: String,
    pub name: String,
    pub updated_at: String,
    pub versions: Option<Vec<i32>>,
    pub keywords: Option<Vec<String>>,
    pub created_at: String,
    pub downloads: i32,
    pub max_version: String,
    pub description: Option<String>,
    pub homepage: Option<String>,
    pub documentation: Option<String>,
    pub license: Option<String>,
    pub repository: Option<String>,
    pub links: CrateLinks,
}

/// The related-resource links of one crate record.
#[derive(Clone)]
pub struct CrateLinks {
    pub version_downloads: String,
    pub versions: Option<String>,
    pub owners: Option<String>,
    pub reverse_dependencies: String,
}

/// The normalized package for one crate record: the name, the repository and
/// documentation links, and the description carry over; the rest is dropped.
pub open spec fn package_of_crate(krate: EncodableCrate) -> Package {
    Package {
        name: krate.name,
        repository: krate.repository,
        documentation: krate.documentation,
        description: krate.description,
    }
}

/// The crates.io search backend.
#[derive(Clone)]
pub struct CratesRepo {}

impl CratesRepo {
    /// Normalizes the decoded API records, in order.
    pub fn packages_from_crates(&self, crates: Vec<EncodableCrate>) -> (r: Vec<Package>)
        ensures
            r@.len() == crates@.len(),
            forall|i: int| 0 <= i < crates@.len() ==> r@[i] == package_of_crate(#[trigger] crates@[i]),
    {
        let mut r: Vec<Package> = Vec::new();
        let mut i: usize = 0;
        while i < crates.len()
            invariant
                i <= crates@.len(),
                r@.len() == i,
                forall|k: int| 0 <= k < i ==> r@[k] == package_of_crate(#[trigger] crates@[k]),
            decreases crates@.len() - i,
        {
            let krate = &crates[i];
            r.push(Package {
                name: krate.name.clone(),
                repository: match &krate.repository {
                    Some(u) => Some(u.clone()),
                    None => None,
                },
                documentation: match &krate.documentation {
                    Some(u) => Some(u.clone()),
                    None => None,
                },
                description: match &krate.description {
                    Some(d) => Some(d.clone()),
                    None => None,
                },
            });
            i = i + 1;
        }
        r
    }
}

} // verus!

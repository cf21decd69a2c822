//! The godoc.org search backend's row logic: turning the texts scraped from
//! one result-table row into a normalized [`Package`]. Fetching the page and
//! walking its markup is transport work and stays with the caller, which
//! hands over the anchor text, the anchor's `href` attribute and the
//! synopsis cell as plain texts.

use vstd::prelude::*;

verus! {

use crate::Package;

/// The index of the first character that is not a `/`.
pub open spec fn skip_slashes(t: Seq<char>, i: int) -> int
    recommends
        0 <= i <= t.len(),
    decreases t.len() - i when 0 <= i <= t.len()
{
    if i < t.len() && t[i] == '/' {
        skip_slashes(t, i + 1)
    } else {
        i
    }
}

/// The text with all leading `/` characters removed.
pub fn trim_leading_slashes(s: &str) -> (r: String)
    ensures
        r@ == s@.skip(skip_slashes(s@, 0)),
{
    let len = s.unicode_len();
    let mut a: usize = 0;
    loop
        invariant
            a <= len,
            len == s@.len(),
            skip_slashes(s@, 0) == skip_slashes(s@, a as int),
        ensures
            a <= len,
            a as int == skip_slashes(s@, 0),
        decreases len - a,
    {
        if a >= len {
            break ;
        }
        if s.get_char(a) != '/' {
            break ;
        }
        a = a + 1;
    }
    let r = String::from_str(s.substring_char(a, len));
    proof {
        assert(s@.subrange(a as int, len as int) =~= s@.skip(a as int));
    }
    r
}

/// The godoc.org search backend.
#[derive(Clone)]
pub struct GodocRepo {}

impl GodocRepo {
    /// The package for one result row. The row yields a package only when it
    /// has an anchor with non-empty text and a synopsis cell; an `href`, with
    /// its leading slashes dropped, becomes the repository link and, behind
    /// the godoc.org prefix, the documentation link.
    pub fn parse_packages_row(
        &self,
        link_text: Option<String>,
        link_href: Option<String>,
        synopsis: Option<String>,
    ) -> (r: Option<Package>)
        ensures
            match (link_text, synopsis) {
                (Some(n), Some(syn)) => if n@.len() > 0 {
                    r matches Some(p) && p.name@ == n@ && p.description == Some(syn) && (match link_href {
                        None => p.repository is None && p.documentation is None,
                        Some(h) => {
                            let stripped = h@.skip(skip_slashes(h@, 0));
                            &&& p.repository matches Some(rp)
                            &&& rp@ == stripped
                            &&& p.documentation matches Some(d)
                            &&& d@ == "http://godoc.org/"@ + stripped
                        },
                    })
                } else {
                    r is None
                },
                _ => r is None,
            },
    {
        let mut pkg: Package = Package::empty();

        match link_text {
            Some(n) => {
                pkg.name = n;
            },
            None => {
                return None;
            },
        }

        if let Some(repourl) = link_href {
            let repo = trim_leading_slashes(repourl.as_str());
            let mut docurl = String::from_str("http://godoc.org/");
            docurl.append(repo.as_str());
            pkg.repository = Some(repo);
            pkg.documentation = Some(docurl);
        }

        match synopsis {
            Some(s) => {
                pkg.description = Some(s);
            },
            None => {
                return None;
            },
        }

        if !pkg.name.as_str().is_empty() {
            Some(pkg)
        } else {
            None
        }
    }
}

} // verus!

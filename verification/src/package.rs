//! Package names and resolution queries.

use vstd::prelude::*;

use crate::text::str_eq;
use crate::version::VersionReq;

verus! {

/// A dot-separated hierarchical package name; identity is case-sensitive
/// and position-sensitive.
#[derive(Debug)]
pub struct Package {
    pub parts: Vec<String>,
}

impl Package {
    /// The name's parts, as character sequences.
    pub open spec fn view(&self) -> Seq<Seq<char>> {
        self.parts.deep_view()
    }

    /// A package name from its parts.
    pub fn new(parts: Vec<String>) -> (p: Package)
        ensures
            p@ == parts.deep_view(),
    {
        Package { parts }
    }

    /// Whether two package names are identical.
    pub fn same(&self, other: &Package) -> (r: bool)
        ensures
            r == (self@ == other@),
    {
        if self.parts.len() != other.parts.len() {
            proof {
                assert(self@.len() == self.parts@.len());
                assert(other@.len() == other.parts@.len());
            }
            return false;
        }
        let mut i: usize = 0;
        while i < self.parts.len()
            invariant
                i <= self.parts@.len(),
                self.parts@.len() == other.parts@.len(),
                forall|j: int| 0 <= j < i ==> self@[j] == other@[j],
            decreases self.parts@.len() - i,
        {
            if !str_eq(self.parts[i].as_str(), other.parts[i].as_str()) {
                proof {
                    assert(self@[i as int] != other@[i as int]);
                }
                return false;
            }
            i = i + 1;
        }
        proof {
            assert(self@ =~= other@);
        }
        true
    }

    /// An owned copy of this package name.
    pub fn duplicate(&self) -> (p: Package)
        ensures
            p@ == self@,
    {
        let mut parts: Vec<String> = Vec::new();
        let mut i: usize = 0;
        while i < self.parts.len()
            invariant
                i <= self.parts@.len(),
                parts@.len() == i,
                forall|j: int| 0 <= j < i ==> parts@[j]@ == self.parts@[j]@,
            decreases self.parts@.len() - i,
        {
            parts.push(self.parts[i].clone());
            i = i + 1;
        }
        let p = Package { parts };
        proof {
            assert(p@ =~= self@);
        }
        p
    }
}

/// A resolution query: a package name with an optional version constraint.
#[derive(Debug)]
pub struct RequiredPackage {
    pub package: Package,
    pub version_req: Option<VersionReq>,
}

impl RequiredPackage {
    /// A query from a package name and an optional constraint.
    pub fn new(package: Package, version_req: Option<VersionReq>) -> (r: RequiredPackage)
        ensures
            r.package@ == package@,
            r.version_req is Some <==> version_req is Some,
            version_req matches Some(q) ==> r.version_req matches Some(q2)
                && q2.comparators@ == q.comparators@,
    {
        RequiredPackage { package, version_req }
    }
}

} // verus!

//! The repository facade: one index and one object store behind
//! `publish` and `resolve`.

use vstd::prelude::*;

use crate::checksum::{sha256_of, Checksum};
use crate::errors::RepoError;
use crate::index::{deps_admitted, upsert_dep, DeploymentV, FileIndex};
use crate::objects::FileObjects;
use crate::package::{Package, RequiredPackage};
use crate::version::{Comparator, Op, Version};

verus! {

broadcast use vstd::seq::group_seq_axioms, vstd::std_specs::vec::group_vec_axioms;

/// The records an index holds for an exact package and version.
pub open spec fn existing_deployments(
    index: Map<Seq<Seq<char>>, Seq<DeploymentV>>,
    package: Seq<Seq<char>>,
    version: Version,
) -> Seq<DeploymentV> {
    if index.contains_key(package) {
        deps_admitted(index[package], Some(seq![Comparator { op: Op::Exact, version }]))
    } else {
        Seq::empty()
    }
}

/// Whether publishing would overwrite an existing deployment of the same
/// version with different content.
pub open spec fn publish_conflicts(
    index: Map<Seq<Seq<char>>, Seq<DeploymentV>>,
    package: Seq<Seq<char>>,
    version: Version,
    checksum: Seq<u8>,
) -> bool {
    exists|i: int|
        0 <= i < existing_deployments(index, package, version).len() && #[trigger] existing_deployments(
            index,
            package,
            version,
        )[i].object != checksum
}

/// The deployments a query resolves to: those recorded for the package that
/// satisfy the optional constraint.
pub open spec fn required_deps(
    index: Map<Seq<Seq<char>>, Seq<DeploymentV>>,
    pkg: Seq<Seq<char>>,
    cs: Option<Seq<Comparator>>,
) -> Seq<DeploymentV> {
    if index.contains_key(pkg) {
        deps_admitted(index[pkg], cs)
    } else {
        Seq::empty()
    }
}

/// The deployments a query resolves to.
pub open spec fn query_deps(
    index: Map<Seq<Seq<char>>, Seq<DeploymentV>>,
    required: RequiredPackage,
) -> Seq<DeploymentV> {
    required_deps(
        index,
        required.package@,
        match required.version_req {
            Some(q) => Some(q.comparators@),
            None => None,
        },
    )
}

/// A repository: a version index combined with an object store.
#[derive(Debug)]
pub struct Repository {
    index: FileIndex,
    objects: FileObjects,
}

impl Repository {
    /// The index contents.
    pub closed spec fn index_view(&self) -> Map<Seq<Seq<char>>, Seq<DeploymentV>> {
        self.index@
    }

    /// The stored blobs.
    pub closed spec fn objects_view(&self) -> Map<Seq<u8>, Seq<u8>> {
        self.objects@
    }

    /// Both components are well formed.
    pub closed spec fn wf(&self) -> bool {
        self.index.wf() && self.objects.wf()
    }

    /// A repository over an index and an object store.
    pub fn new(index: FileIndex, objects: FileObjects) -> (r: Repository)
        requires
            index.wf(),
            objects.wf(),
        ensures
            r.index_view() == index@,
            r.objects_view() == objects@,
            r.wf(),
    {
        Repository { index, objects }
    }

    /// Publish an artifact under a package and version. An existing
    /// deployment of the same version with a different checksum is a
    /// conflict unless `force` is set; the blob is stored first, so a crash
    /// between the two steps leaves only a harmless unreferenced blob.
    pub fn publish(&mut self, artifact: &Vec<u8>, package: &Package, version: &Version, force: bool)
        -> (r: Result<(), RepoError>)
        requires
            old(self).wf(),
        ensures
            final(self).wf(),
            ({
                // Success is owed whenever no unforced version conflict
                // stands and the store holds nothing different under the
                // artifact's digest.
                let c = sha256_of(artifact@);
                ((force || !publish_conflicts(old(self).index_view(), package@, *version, c)) && (
                !old(self).objects_view().contains_key(c) || old(self).objects_view()[c]
                    == artifact@)) ==> r is Ok
            }),
            ({
                let c = sha256_of(artifact@);
                match r {
                    Ok(u) => (force || !publish_conflicts(
                        old(self).index_view(),
                        package@,
                        *version,
                        c,
                    )) && (!old(self).objects_view().contains_key(c) || old(self).objects_view()[c]
                        == artifact@) && final(self).objects_view() == old(self).objects_view().insert(c, artifact@) && final(self).index_view() == old(self).index_view().insert(
                        package@,
                        upsert_dep(
                            if old(self).index_view().contains_key(package@) {
                                old(self).index_view()[package@]
                            } else {
                                Seq::empty()
                            },
                            *version,
                            c,
                        ),
                    ),
                    Err(e) => final(self).index_view() == old(self).index_view() && final(self).objects_view() == old(self).objects_view() && ((e
                        == RepoError::VersionConflict && !force && publish_conflicts(
                        old(self).index_view(),
                        package@,
                        *version,
                        c,
                    )) || (e == RepoError::StoreInconsistency && old(self).objects_view().contains_key(c) && old(self).objects_view()[c] != artifact@
                        && (force || !publish_conflicts(
                        old(self).index_view(),
                        package@,
                        *version,
                        c,
                    )))),
                }
            }),
    {
        let checksum = Checksum::checksum(artifact);
        if !force {
            let existing = self.index.get_deployments(package, version);
            let mut i: usize = 0;
            while i < existing.len()
                invariant
                    self.wf(),
                    !force,
                    i <= existing@.len(),
                    crate::index::deps_v(existing@) == existing_deployments(
                        self.index_view(),
                        package@,
                        *version,
                    ),
                    checksum@ == sha256_of(artifact@),
                    forall|j: int|
                        0 <= j < i ==> #[trigger] crate::index::deps_v(existing@)[j].object
                            == checksum@,
                    *self == *old(self),
                decreases existing@.len() - i,
            {
                if !existing[i].object.matches(&checksum) {
                    proof {
                        assert(crate::index::deps_v(existing@)[i as int].object != checksum@);
                        assert(publish_conflicts(
                            self.index_view(),
                            package@,
                            *version,
                            checksum@,
                        ));
                    }
                    return Err(RepoError::VersionConflict);
                }
                i = i + 1;
            }
            proof {
                if publish_conflicts(self.index_view(), package@, *version, checksum@) {
                    let j = choose|j: int|
                        0 <= j < existing_deployments(
                            self.index_view(),
                            package@,
                            *version,
                        ).len() && existing_deployments(self.index_view(), package@, *version)[j].object
                            != checksum@;
                    assert(crate::index::deps_v(existing@)[j].object != checksum@);
                    assert(false);
                }
            }
        }
        match self.objects.put_object(&checksum, artifact, force) {
            Ok(u) => {},
            Err(e) => {
                return Err(e);
            },
        }
        match self.index.put_version(&checksum, package, version) {
            Ok(u) => Ok(()),
            Err(e) => Err(e),
        }
    }

    /// Resolve a required package: every matching deployment's content,
    /// paired with its version. A deployment whose blob is missing from the
    /// object store is a store inconsistency, not a silent skip.
    #[verifier::rlimit(50)]
    #[verifier::spinoff_prover]
    pub fn resolve(&self, required: &RequiredPackage) -> (r: Result<
        Vec<(Vec<u8>, Option<Version>)>,
        RepoError,
    >)
        requires
            self.wf(),
        ensures
            r matches Ok(v) ==> v@.len() == query_deps(self.index_view(), *required).len()
                && forall|i: int|
                0 <= i < query_deps(self.index_view(), *required).len()
                    ==> self.objects_view().contains_key(
                    (#[trigger] query_deps(self.index_view(), *required)[i]).object,
                ) && v@[i].0@ == self.objects_view()[query_deps(self.index_view(), *required)[i].object]
                    && v@[i].1 == Some(query_deps(self.index_view(), *required)[i].version),
            r matches Err(e) ==> e == RepoError::StoreInconsistency && exists|i: int|
                0 <= i < query_deps(self.index_view(), *required).len()
                    && !self.objects_view().contains_key(
                    (#[trigger] query_deps(self.index_view(), *required)[i]).object,
                ),
    {
        let deployments = self.index.resolve(
            &required.package,
            match &required.version_req {
                Some(q) => Some(q),
                None => None,
            },
        );
        let ghost deps = crate::index::deps_v(deployments@);
        let mut out: Vec<(Vec<u8>, Option<Version>)> = Vec::new();
        let mut i: usize = 0;
        while i < deployments.len()
            invariant
                self.wf(),
                deps == crate::index::deps_v(deployments@),
                deps == query_deps(self.index_view(), *required),
                i <= deployments@.len(),
                out@.len() == i,
                forall|j: int|
                    0 <= j < i ==> self.objects_view().contains_key((#[trigger] deps[j]).object)
                        && out@[j].0@ == self.objects_view()[deps[j].object] && out@[j].1 == Some(
                        deps[j].version,
                    ),
            decreases deployments@.len() - i,
        {
            let d = &deployments[i];
            proof {
                assert(deps[i as int] == crate::index::dep_v(deployments@[i as int]));
            }
            match self.objects.get_object(&d.object) {
                Some(bytes) => {
                    out.push((bytes, Some(d.version)));
                },
                None => {
                    proof {
                        assert(exists|j: int|
                            0 <= j < query_deps(self.index_view(), *required).len()
                                && !self.objects_view().contains_key(
                                (#[trigger] query_deps(self.index_view(), *required)[j]).object,
                            )) by {
                            assert(0 <= i < query_deps(self.index_view(), *required).len()
                                && !self.objects_view().contains_key(
                                query_deps(self.index_view(), *required)[i as int].object,
                            ));
                        };
                    }
                    return Err(RepoError::StoreInconsistency);
                },
            }
            i = i + 1;
        }
        Ok(out)
    }
}

} // verus!

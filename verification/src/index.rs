//! The version index: deployment records per package, resolved against
//! version constraints.

use vstd::prelude::*;

use crate::checksum::Checksum;
use crate::errors::RepoError;
use crate::package::Package;
use crate::version::{comparator_matches, req_matches, Comparator, Version, VersionReq};

verus! {

broadcast use vstd::seq::group_seq_axioms, vstd::std_specs::vec::group_vec_axioms;

/// Configuration for index backends.
#[derive(Debug)]
pub struct IndexConfig {
    /// Root path for checking out index repositories.
    pub repos: Option<String>,
}

/// An immutable record: a version published under a checksum.
#[derive(Debug)]
pub struct Deployment {
    pub version: Version,
    pub object: Checksum,
}

/// The mathematical content of a deployment record.
#[verifier::ext_equal]
pub ghost struct DeploymentV {
    pub version: Version,
    pub object: Seq<u8>,
}

/// The content of a deployment.
pub open spec fn dep_v(d: Deployment) -> DeploymentV {
    DeploymentV { version: d.version, object: d.object@ }
}

/// The content of a deployment list.
pub open spec fn deps_v(ds: Seq<Deployment>) -> Seq<DeploymentV> {
    Seq::new(ds.len(), |i: int| dep_v(ds[i]))
}

impl Deployment {
    /// A record from a version and the checksum it was published under.
    pub fn new(version: Version, object: Checksum) -> (d: Deployment)
        ensures
            dep_v(d) == (DeploymentV { version, object: object@ }),
    {
        Deployment { version, object }
    }
}

/// The index contents: a map from package names to their deployment
/// records, in publish order.
pub open spec fn packages_map(s: Seq<(Package, Vec<Deployment>)>) -> Map<
    Seq<Seq<char>>,
    Seq<DeploymentV>,
>
    decreases s.len(),
{
    if s.len() == 0 {
        Map::empty()
    } else {
        packages_map(s.drop_last()).insert(s.last().0@, deps_v(s.last().1@))
    }
}

/// A package is held exactly when some entry carries it.
pub broadcast proof fn lemma_packages_map_dom(s: Seq<(Package, Vec<Deployment>)>, k: Seq<Seq<char>>)
    ensures
        #[trigger] packages_map(s).contains_key(k) <==> exists|i: int|
            0 <= i < s.len() && s[i].0@ == k,
    decreases s.len(),
{
    if s.len() > 0 {
        lemma_packages_map_dom(s.drop_last(), k);
        if packages_map(s).contains_key(k) {
            if s.last().0@ == k {
                assert(s[s.len() - 1].0@ == k);
            } else {
                let i = choose|i: int| 0 <= i < s.drop_last().len() && s.drop_last()[i].0@ == k;
                assert(s[i].0@ == k);
            }
        }
        if exists|i: int| 0 <= i < s.len() && s[i].0@ == k {
            let i = choose|i: int| 0 <= i < s.len() && s[i].0@ == k;
            if i < s.len() - 1 {
                assert(s.drop_last()[i].0@ == k);
            }
        }
    }
}

/// With unique keys, the map returns each entry's own records.
pub broadcast proof fn lemma_packages_map_at(s: Seq<(Package, Vec<Deployment>)>, i: int)
    requires
        0 <= i < s.len(),
        forall|a: int, b: int| 0 <= a < b < s.len() ==> s[a].0@ != s[b].0@,
    ensures
        #[trigger] packages_map(s)[s[i].0@] == deps_v(s[i].1@),
    decreases s.len(),
{
    if i == s.len() - 1 {
    } else {
        lemma_packages_map_at(s.drop_last(), i);
        assert(s.drop_last()[i] == s[i]);
        assert(s.last().0@ != s[i].0@);
    }
}

/// No two records carry the same version.
pub open spec fn unique_versions(ds: Seq<DeploymentV>) -> bool {
    forall|i: int, j: int| 0 <= i < j < ds.len() ==> ds[i].version != ds[j].version
}

/// `find_version` names the first record for a version: everything before
/// it differs, and it matches when it is in range.
pub proof fn lemma_find_version_first(ds: Seq<DeploymentV>, v: Version, from: int)
    requires
        0 <= from <= ds.len(),
    ensures
        from <= find_version(ds, v, from) <= ds.len(),
        find_version(ds, v, from) < ds.len() ==> ds[find_version(ds, v, from)].version == v,
        forall|k: int| from <= k < find_version(ds, v, from) ==> ds[k].version != v,
    decreases ds.len() - from,
{
    if from < ds.len() && ds[from].version != v {
        lemma_find_version_first(ds, v, from + 1);
    }
}

/// Whether a deployment satisfies an optional constraint: no constraint
/// admits everything.
pub open spec fn dep_admitted(d: DeploymentV, cs: Option<Seq<Comparator>>) -> bool {
    match cs {
        None => true,
        Some(cs) => req_matches(cs, d.version),
    }
}

/// The deployments of a list that satisfy an optional constraint, in order.
pub open spec fn deps_admitted(ds: Seq<DeploymentV>, cs: Option<Seq<Comparator>>) -> Seq<
    DeploymentV,
>
    decreases ds.len(),
{
    if ds.len() == 0 {
        Seq::empty()
    } else if dep_admitted(ds.last(), cs) {
        deps_admitted(ds.drop_last(), cs).push(ds.last())
    } else {
        deps_admitted(ds.drop_last(), cs)
    }
}

/// The position of the first record for a version, or the length.
pub open spec fn find_version(ds: Seq<DeploymentV>, v: Version, from: int) -> int
    decreases ds.len() - from,
{
    if from < 0 || from >= ds.len() {
        ds.len() as int
    } else if ds[from].version == v {
        from
    } else {
        find_version(ds, v, from + 1)
    }
}

/// Records after appending or overwriting the record for one version: an
/// existing record for the version changes its checksum in place, a new
/// version appends.
pub open spec fn upsert_dep(ds: Seq<DeploymentV>, v: Version, c: Seq<u8>) -> Seq<DeploymentV> {
    let i = find_version(ds, v, 0);
    if i < ds.len() {
        ds.update(i, DeploymentV { version: v, object: c })
    } else {
        ds.push(DeploymentV { version: v, object: c })
    }
}

/// A local index rooted at a directory: per-package deployment records and
/// the location of the companion object store.
#[derive(Debug)]
pub struct FileIndex {
    root: String,
    objects_url: String,
    packages: Vec<(Package, Vec<Deployment>)>,
}

impl FileIndex {
    /// The records held, keyed by package name.
    pub closed spec fn view(&self) -> Map<Seq<Seq<char>>, Seq<DeploymentV>> {
        packages_map(self.packages@)
    }

    /// The directory the index is rooted at.
    pub closed spec fn root_view(&self) -> Seq<char> {
        self.root@
    }

    /// The configured location of the companion object store.
    pub closed spec fn objects_url_view(&self) -> Seq<char> {
        self.objects_url@
    }

    /// Each package is held at most once, and no package records the same
    /// version twice.
    pub closed spec fn wf(&self) -> bool {
        (forall|a: int, b: int|
            0 <= a < b < self.packages@.len() ==> self.packages@[a].0@ != self.packages@[b].0@)
            && (forall|a: int|
            0 <= a < self.packages@.len() ==> unique_versions(
                deps_v(#[trigger] self.packages@[a].1@),
            ))
    }

    /// An empty index rooted at a directory, with its object-store location.
    pub fn new(root: String, objects_url: String) -> (r: FileIndex)
        ensures
            r@ == Map::<Seq<Seq<char>>, Seq<DeploymentV>>::empty(),
            r.root_view() == root@,
            r.objects_url_view() == objects_url@,
            r.wf(),
    {
        let r = FileIndex { root, objects_url, packages: Vec::new() };
        proof {
            assert(r@ =~= Map::<Seq<Seq<char>>, Seq<DeploymentV>>::empty());
        }
        r
    }

    /// Where this index's objects live; may be relative to the index root
    /// or an absolute URL.
    pub fn objects_url(&self) -> (r: &String)
        ensures
            r@ == self.objects_url_view(),
    {
        &self.objects_url
    }

    /// Refresh local mirrors: nothing to do for a plain directory index.
    pub fn update(&self) {
    }

    fn find_package(&self, package: &Package) -> (r: Option<usize>)
        requires
            self.wf(),
        ensures
            match r {
                Some(i) => i < self.packages@.len() && self.packages@[i as int].0@ == package@
                    && self@.contains_key(package@) && self@[package@] == deps_v(
                    self.packages@[i as int].1@,
                ),
                None => !self@.contains_key(package@),
            },
    {
        let mut i: usize = 0;
        while i < self.packages.len()
            invariant
                self.wf(),
                i <= self.packages@.len(),
                forall|j: int| 0 <= j < i ==> self.packages@[j].0@ != package@,
            decreases self.packages@.len() - i,
        {
            if self.packages[i].0.same(package) {
                proof {
                    lemma_packages_map_dom(self.packages@, package@);
                    lemma_packages_map_at(self.packages@, i as int);
                }
                return Some(i);
            }
            i = i + 1;
        }
        proof {
            lemma_packages_map_dom(self.packages@, package@);
        }
        None
    }

    /// Every deployment recorded for the package that satisfies the
    /// constraint, in recorded order; an unknown package yields an empty
    /// list, not an error.
    pub fn resolve(&self, package: &Package, version_req: Option<&VersionReq>) -> (r: Vec<
        Deployment,
    >)
        requires
            self.wf(),
        ensures
            deps_v(r@) == (if self@.contains_key(package@) {
                deps_admitted(
                    self@[package@],
                    match version_req {
                        Some(q) => Some(q.comparators@),
                        None => None,
                    },
                )
            } else {
                Seq::<DeploymentV>::empty()
            }),
    {
        let ghost cs: Option<Seq<Comparator>> = match version_req {
            Some(q) => Some(q.comparators@),
            None => None,
        };
        let mut out: Vec<Deployment> = Vec::new();
        match self.find_package(package) {
            Some(i) => {
                let held = &self.packages[i].1;
                let ghost hv = deps_v(held@);
                let mut j: usize = 0;
                while j < held.len()
                    invariant
                        hv == deps_v(held@),
                        cs == (match version_req {
                            Some(q) => Some(q.comparators@),
                            None => None,
                        }),
                        j <= held@.len(),
                        deps_v(out@) =~= deps_admitted(hv.take(j as int), cs),
                    decreases held@.len() - j,
                {
                    let d = &held[j];
                    let admitted = match version_req {
                        Some(q) => q.matches(&d.version),
                        None => true,
                    };
                    proof {
                        assert(hv.take(j as int + 1).drop_last() =~= hv.take(j as int));
                        assert(hv.take(j as int + 1).last() == hv[j as int]);
                        assert(hv[j as int] == dep_v(held@[j as int]));
                    }
                    if admitted {
                        out.push(Deployment { version: d.version, object: d.object.duplicate() });
                        proof {
                            assert(deps_v(out@) =~= deps_admitted(hv.take(j as int + 1), cs));
                        }
                    } else {
                        proof {
                            assert(deps_v(out@) =~= deps_admitted(hv.take(j as int + 1), cs));
                        }
                    }
                    j = j + 1;
                }
                proof {
                    assert(hv.take(hv.len() as int) =~= hv);
                    assert(deps_v(out@) =~= deps_admitted(hv, cs));
                }
                out
            },
            None => {
                proof {
                    assert(deps_v(out@) =~= Seq::<DeploymentV>::empty());
                }
                out
            },
        }
    }

    /// The records for an exact package and version: normally none or one.
    pub fn get_deployments(&self, package: &Package, version: &Version) -> (r: Vec<Deployment>)
        requires
            self.wf(),
        ensures
            deps_v(r@) == (if self@.contains_key(package@) {
                deps_admitted(
                    self@[package@],
                    Some(seq![Comparator { op: crate::version::Op::Exact, version: *version }]),
                )
            } else {
                Seq::<DeploymentV>::empty()
            }),
    {
        let q = VersionReq::new(vec![Comparator { op: crate::version::Op::Exact, version: *version }]);
        proof {
            assert(q.comparators@ =~= seq![
                Comparator { op: crate::version::Op::Exact, version: *version },
            ]);
        }
        self.resolve(package, Some(&q))
    }

    /// Append or overwrite the record for `(package, version)`; the index
    /// itself enforces no conflict policy.
    pub fn put_version(&mut self, checksum: &Checksum, package: &Package, version: &Version) -> (r:
        Result<(), RepoError>)
        requires
            old(self).wf(),
        ensures
            final(self).wf(),
            final(self).root_view() == old(self).root_view(),
            final(self).objects_url_view() == old(self).objects_url_view(),
            r is Ok,
            final(self)@ == old(self)@.insert(
                package@,
                upsert_dep(
                    if old(self)@.contains_key(package@) {
                        old(self)@[package@]
                    } else {
                        Seq::empty()
                    },
                    *version,
                    checksum@,
                ),
            ),
    {
        match self.find_package(package) {
            Some(i) => {
                let ghost prepkgs = self.packages@;
                let entry = self.packages.remove(i);
                let ghost mid = self.packages@;
                let (owner, mut deps) = entry;
                let ghost predeps = deps_v(deps@);
                let mut j: usize = 0;
                let mut found: bool = false;
                while j < deps.len() && !found
                    invariant
                        predeps == deps_v(deps@),
                        j <= deps@.len(),
                        !found ==> find_version(predeps, *version, 0) == find_version(
                            predeps,
                            *version,
                            j as int,
                        ),
                        found ==> j < deps@.len() && find_version(predeps, *version, 0) == j as int,
                    decreases deps@.len() - j + (if found { 0int } else { 1int }),
                {
                    if deps[j].version == *version {
                        found = true;
                        proof {
                            assert(predeps[j as int].version == *version);
                            assert(find_version(predeps, *version, j as int) == j as int);
                        }
                    } else {
                        proof {
                            assert(predeps[j as int].version != *version);
                        }
                        j = j + 1;
                    }
                }
                let ghost newdeps = upsert_dep(predeps, *version, checksum@);
                proof {
                    assert(entry == prepkgs[i as int]);
                    assert(unique_versions(predeps)) by {
                        assert(unique_versions(deps_v(prepkgs[i as int].1@)));
                    };
                }
                if found {
                    deps.set(j, Deployment { version: *version, object: checksum.duplicate() });
                    proof {
                        assert(deps_v(deps@) =~= newdeps);
                        lemma_find_version_first(predeps, *version, 0);
                        assert(predeps[j as int].version == *version);
                        assert(unique_versions(deps_v(deps@))) by {
                            assert(forall|k: int|
                                0 <= k < deps_v(deps@).len() ==> (#[trigger] deps_v(deps@)[k]).version
                                    == predeps[k].version);
                        };
                    }
                } else {
                    proof {
                        assert(find_version(predeps, *version, j as int) == predeps.len() as int);
                    }
                    deps.push(Deployment { version: *version, object: checksum.duplicate() });
                    proof {
                        assert(deps_v(deps@) =~= newdeps);
                        lemma_find_version_first(predeps, *version, 0);
                        assert(forall|k: int|
                            0 <= k < predeps.len() ==> (#[trigger] predeps[k]).version != *version);
                        assert(unique_versions(deps_v(deps@))) by {
                            assert(forall|k: int|
                                0 <= k < predeps.len() ==> deps_v(deps@)[k] == predeps[k]);
                            assert(deps_v(deps@).last().version == *version);
                        };
                    }
                }
                self.packages.push((owner, deps));
                proof {
                    assert(forall|a: int|
                        0 <= a < mid.len() ==> #[trigger] mid[a] == (if a < i {
                            prepkgs[a]
                        } else {
                            prepkgs[a + 1]
                        }));
                    assert(forall|a: int, b: int|
                        0 <= a < b < mid.len() ==> mid[a].0@ != mid[b].0@);
                    assert(forall|a: int| 0 <= a < mid.len() ==> mid[a].0@ != package@);
                    assert(forall|a: int|
                        0 <= a < mid.len() ==> unique_versions(deps_v(#[trigger] mid[a].1@))) by {
                        assert(forall|a: int|
                            0 <= a < mid.len() ==> #[trigger] mid[a] == (if a < i {
                                prepkgs[a]
                            } else {
                                prepkgs[a + 1]
                            }));
                    };
                    assert(self.packages@.drop_last() =~= mid);
                    assert(self.packages@.last().0@ == package@);
                    assert(unique_versions(deps_v(self.packages@.last().1@)));
                    assert(forall|a: int, b: int|
                        0 <= a < b < self.packages@.len() ==> self.packages@[a].0@
                            != self.packages@[b].0@);
                    assert forall|k2: Seq<Seq<char>>| k2 != package@ implies ((
                    #[trigger] packages_map(mid).contains_key(k2)) <==> packages_map(
                        prepkgs,
                    ).contains_key(k2)) by {
                        lemma_packages_map_dom(mid, k2);
                        lemma_packages_map_dom(prepkgs, k2);
                        if exists|a: int| 0 <= a < mid.len() && mid[a].0@ == k2 {
                            let a = choose|a: int| 0 <= a < mid.len() && mid[a].0@ == k2;
                            if a < i {
                                assert(prepkgs[a].0@ == k2);
                            } else {
                                assert(prepkgs[a + 1].0@ == k2);
                            }
                        }
                        if exists|b: int| 0 <= b < prepkgs.len() && prepkgs[b].0@ == k2 {
                            let b = choose|b: int| 0 <= b < prepkgs.len() && prepkgs[b].0@ == k2;
                            assert(b != i);
                            if b < i {
                                assert(mid[b].0@ == k2);
                            } else {
                                assert(mid[b - 1].0@ == k2);
                            }
                        }
                    };
                    assert forall|k2: Seq<Seq<char>>|
                        k2 != package@ && packages_map(mid).contains_key(k2) implies #[trigger] packages_map(
                        mid,
                    )[k2] == packages_map(prepkgs)[k2] by {
                        lemma_packages_map_dom(mid, k2);
                        let a = choose|a: int| 0 <= a < mid.len() && mid[a].0@ == k2;
                        lemma_packages_map_at(mid, a);
                        if a < i {
                            lemma_packages_map_at(prepkgs, a);
                        } else {
                            lemma_packages_map_at(prepkgs, a + 1);
                        }
                    };
                    assert(self@ == packages_map(mid).insert(package@, deps_v(
                        self.packages@.last().1@,
                    )));
                    assert(self@ =~= old(self)@.insert(package@, newdeps)) by {
                        assert forall|k2: Seq<Seq<char>>|
                            #[trigger] self@.contains_key(k2) <==> old(self)@.insert(
                            package@,
                            newdeps,
                        ).contains_key(k2) by {
                            lemma_packages_map_dom(mid, k2);
                            lemma_packages_map_dom(prepkgs, k2);
                        };
                    };
                }
                Ok(())
            },
            None => {
                let ghost pre = self.packages@;
                let mut deps: Vec<Deployment> = Vec::new();
                deps.push(Deployment { version: *version, object: checksum.duplicate() });
                self.packages.push((package.duplicate(), deps));
                proof {
                    assert(self.packages@.drop_last() =~= pre);
                    assert(forall|a: int, b: int|
                        0 <= a < b < self.packages@.len() ==> self.packages@[a].0@
                            != self.packages@[b].0@) by {
                        assert(forall|a: int| 0 <= a < pre.len() ==> self.packages@[a] == pre[a]);
                        if exists|a: int| 0 <= a < pre.len() && pre[a].0@ == package@ {
                            let a = choose|a: int| 0 <= a < pre.len() && pre[a].0@ == package@;
                            lemma_packages_map_dom(pre, package@);
                            assert(false);
                        }
                    };
                    assert(forall|a: int|
                        0 <= a < self.packages@.len() ==> unique_versions(
                            deps_v(#[trigger] self.packages@[a].1@),
                        )) by {
                        assert(forall|a: int| 0 <= a < pre.len() ==> self.packages@[a] == pre[a]);
                        assert(deps_v(self.packages@.last().1@).len() == 1);
                    };
                    let newdeps = deps_v(self.packages@.last().1@);
                    assert(newdeps =~= upsert_dep(Seq::empty(), *version, checksum@));
                    assert(self@ =~= old(self)@.insert(
                        package@,
                        upsert_dep(Seq::empty(), *version, checksum@),
                    ));
                }
                Ok(())
            },
        }
    }
}


/// Open a local index rooted at a path; the caller reports whether the
/// path exists as a directory.
pub fn index_from_path(path: String, objects_url: String, path_is_dir: bool) -> (r: Result<
    FileIndex,
    RepoError,
>)
    ensures
        path_is_dir ==> (r matches Ok(ix) && ix@ == Map::<Seq<Seq<char>>, Seq<DeploymentV>>::empty()
            && ix.root_view() == path@ && ix.objects_url_view() == objects_url@ && ix.wf()),
        !path_is_dir ==> (r matches Err(e) && e == RepoError::NotADirectory),
{
    if !path_is_dir {
        return Err(RepoError::NotADirectory);
    }
    Ok(FileIndex::new(path, objects_url))
}


/// The single-comparator exact constraint admits exactly the records for
/// its version.
proof fn lemma_exact_admits(d: DeploymentV, v: Version)
    ensures
        dep_admitted(d, Some(seq![Comparator { op: crate::version::Op::Exact, version: v }])) == (
        d.version == v),
{
    let c0 = Comparator { op: crate::version::Op::Exact, version: v };
    assert(seq![c0][0] == c0);
    if req_matches(seq![c0], d.version) {
        assert(comparator_matches(seq![c0][0], d.version));
    }
    if d.version == v {
        assert(forall|k: int|
            0 <= k < 1 ==> comparator_matches(#[trigger] seq![c0][k], d.version)) by {
            assert(seq![c0][0] == c0);
        };
    }
}

/// With no record for the version, the exact lookup is empty.
proof fn lemma_admitted_exact_none(ds: Seq<DeploymentV>, v: Version)
    requires
        forall|k: int| 0 <= k < ds.len() ==> (#[trigger] ds[k]).version != v,
    ensures
        deps_admitted(ds, Some(seq![Comparator { op: crate::version::Op::Exact, version: v }]))
            == Seq::<DeploymentV>::empty(),
    decreases ds.len(),
{
    let cs = Some(seq![Comparator { op: crate::version::Op::Exact, version: v }]);
    if ds.len() > 0 {
        lemma_exact_admits(ds.last(), v);
        assert(!dep_admitted(ds.last(), cs)) by {
            assert(ds[ds.len() - 1].version != v);
        };
        assert(forall|k: int|
            0 <= k < ds.drop_last().len() ==> (#[trigger] ds.drop_last()[k]).version != v);
        lemma_admitted_exact_none(ds.drop_last(), v);
    }
}

/// With unique versions, the exact lookup returns just the one matching
/// record.
proof fn lemma_admitted_exact_one(ds: Seq<DeploymentV>, v: Version, i: int)
    requires
        unique_versions(ds),
        0 <= i < ds.len(),
        ds[i].version == v,
    ensures
        deps_admitted(ds, Some(seq![Comparator { op: crate::version::Op::Exact, version: v }]))
            == seq![ds[i]],
    decreases ds.len(),
{
    let cs = Some(seq![Comparator { op: crate::version::Op::Exact, version: v }]);
    lemma_exact_admits(ds.last(), v);
    if i == ds.len() - 1 {
        assert(dep_admitted(ds.last(), cs));
        assert(forall|k: int|
            0 <= k < ds.drop_last().len() ==> (#[trigger] ds.drop_last()[k]).version != v) by {
            assert(forall|k: int| 0 <= k < ds.len() - 1 ==> ds[k].version != ds[i].version);
        };
        lemma_admitted_exact_none(ds.drop_last(), v);
        assert(deps_admitted(ds, cs) =~= seq![ds[i]]);
    } else {
        assert(ds.last().version != v) by {
            assert(ds[i].version != ds[ds.len() - 1].version);
        };
        assert(!dep_admitted(ds.last(), cs));
        assert(unique_versions(ds.drop_last())) by {
            assert(forall|a: int, b: int|
                0 <= a < b < ds.drop_last().len() ==> ds.drop_last()[a] == ds[a]
                    && ds.drop_last()[b] == ds[b]);
        };
        assert(ds.drop_last()[i] == ds[i]);
        lemma_admitted_exact_one(ds.drop_last(), v, i);
    }
}

/// Writing then reading a version: after `put_version` records `(v, c)`,
/// `get_deployments` for that package and version returns exactly the one
/// new record.
pub proof fn lemma_put_then_get_deployments(ds: Seq<DeploymentV>, v: Version, c: Seq<u8>)
    requires
        unique_versions(ds),
    ensures
        deps_admitted(
            upsert_dep(ds, v, c),
            Some(seq![Comparator { op: crate::version::Op::Exact, version: v }]),
        ) == seq![DeploymentV { version: v, object: c }],
{
    let new = DeploymentV { version: v, object: c };
    let f = find_version(ds, v, 0);
    lemma_find_version_first(ds, v, 0);
    if f < ds.len() {
        let ds2 = ds.update(f, new);
        assert(unique_versions(ds2)) by {
            assert(ds[f].version == v);
            assert(forall|k: int|
                0 <= k < ds2.len() ==> (#[trigger] ds2[k]).version == ds[k].version);
        };
        assert(ds2[f] == new);
        lemma_admitted_exact_one(ds2, v, f);
    } else {
        let ds2 = ds.push(new);
        assert(unique_versions(ds2)) by {
            assert(forall|k: int| 0 <= k < ds.len() ==> (#[trigger] ds[k]).version != v);
            assert(forall|k: int| 0 <= k < ds.len() ==> ds2[k] == ds[k]);
            assert(ds2[ds2.len() - 1] == new);
        };
        assert(ds2[ds.len() as int] == new);
        lemma_admitted_exact_one(ds2, v, ds.len() as int);
    }
}

} // verus!

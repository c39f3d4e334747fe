//! The publish workflow: collect candidate artifacts from manifest entries
//! and free-form package queries, and enforce that exactly one remains.

use vstd::prelude::*;

use crate::errors::RepoError;
use crate::package::Package;
use crate::version::Version;

verus! {

broadcast use vstd::seq::group_seq_axioms, vstd::std_specs::vec::group_vec_axioms;

/// A candidate artifact: the version to publish, the resolved on-disk
/// artifact, and the package it belongs to.
#[derive(Debug)]
pub struct Candidate {
    pub version: Version,
    pub artifact: String,
    pub package: Package,
}

/// The mathematical content of a candidate.
#[verifier::ext_equal]
pub ghost struct CandidateV {
    pub version: Version,
    pub artifact: Seq<char>,
    pub package: Seq<Seq<char>>,
}

/// The content of a candidate.
pub open spec fn candidate_v(c: Candidate) -> CandidateV {
    CandidateV { version: c.version, artifact: c.artifact@, package: c.package@ }
}

/// A manifest entry with its resolved on-disk artifacts: the version comes
/// from the manifest itself.
#[derive(Debug)]
pub struct ManifestPublish {
    pub package: Package,
    pub version: Version,
    pub matches: Vec<String>,
}

/// A free-form package query with its resolved artifacts: each match
/// carries the version embedded in the artifact, if it has one.
#[derive(Debug)]
pub struct FreeformResolved {
    pub package: Package,
    pub matches: Vec<(Option<Version>, String)>,
}

/// The candidates of one manifest entry, one per resolved artifact.
pub open spec fn manifest_candidates(e: ManifestPublish) -> Seq<CandidateV> {
    Seq::new(
        e.matches@.len(),
        |k: int| CandidateV { version: e.version, artifact: e.matches@[k]@, package: e.package@ },
    )
}

/// The candidates of the manifest entries from position `i` on: an entry
/// that resolved to nothing is a hard failure.
pub open spec fn manifest_scan(es: Seq<ManifestPublish>, i: int) -> Result<Seq<CandidateV>, RepoError>
    decreases es.len() - i,
{
    if i < 0 || i >= es.len() {
        Ok(Seq::empty())
    } else if es[i].matches@.len() == 0 {
        Err(RepoError::NoMatchingPackage)
    } else {
        match manifest_scan(es, i + 1) {
            Err(e) => Err(e),
            Ok(rest) => Ok(manifest_candidates(es[i]) + rest),
        }
    }
}

/// The candidates of one free-form entry, from match position `j` on: a
/// match without an embedded version is a hard failure.
pub open spec fn freeform_candidates(e: FreeformResolved, j: int) -> Result<Seq<CandidateV>, RepoError>
    decreases e.matches@.len() - j,
{
    if j < 0 || j >= e.matches@.len() {
        Ok(Seq::empty())
    } else {
        match e.matches@[j].0 {
            None => Err(RepoError::MissingVersion),
            Some(v) => match freeform_candidates(e, j + 1) {
                Err(err) => Err(err),
                Ok(rest) => Ok(
                    seq![
                        CandidateV {
                            version: v,
                            artifact: e.matches@[j].1@,
                            package: e.package@,
                        },
                    ] + rest,
                ),
            },
        }
    }
}

/// The candidates of the free-form entries from position `i` on.
pub open spec fn freeform_scan(es: Seq<FreeformResolved>, i: int) -> Result<Seq<CandidateV>, RepoError>
    decreases es.len() - i,
{
    if i < 0 || i >= es.len() {
        Ok(Seq::empty())
    } else if es[i].matches@.len() == 0 {
        Err(RepoError::NoMatchingPackage)
    } else {
        match freeform_candidates(es[i], 0) {
            Err(e) => Err(e),
            Ok(own) => match freeform_scan(es, i + 1) {
                Err(e) => Err(e),
                Ok(rest) => Ok(own + rest),
            },
        }
    }
}

/// What collecting candidates yields: every candidate of every entry, or
/// the first resolution failure.
pub open spec fn collected(ms: Seq<ManifestPublish>, fs: Seq<FreeformResolved>) -> Result<
    Seq<CandidateV>,
    RepoError,
> {
    match manifest_scan(ms, 0) {
        Err(e) => Err(e),
        Ok(a) => match freeform_scan(fs, 0) {
            Err(e) => Err(e),
            Ok(b) => Ok(a + b),
        },
    }
}

/// What a publish invocation decides: exactly one candidate must remain.
/// None yields `EmptyPublishSet`; more than one yields `AmbiguousPublishSet`
/// after the candidates have been gathered for diagnosis.
pub open spec fn publish_decision(ms: Seq<ManifestPublish>, fs: Seq<FreeformResolved>) -> Result<
    CandidateV,
    RepoError,
> {
    match collected(ms, fs) {
        Err(e) => Err(e),
        Ok(cs) => if cs.len() == 0 {
            Err(RepoError::EmptyPublishSet)
        } else if cs.len() > 1 {
            Err(RepoError::AmbiguousPublishSet)
        } else {
            Ok(cs[0])
        },
    }
}

/// Collect the candidates of all entries, in order.
pub fn collect_candidates(manifest: Vec<ManifestPublish>, freeform: Vec<FreeformResolved>) -> (r:
    Result<Vec<Candidate>, RepoError>)
    ensures
        match collected(manifest@, freeform@) {
            Ok(cs) => r matches Ok(v) && Seq::new(v@.len(), |k: int| candidate_v(v@[k])) == cs,
            Err(e) => r matches Err(e2) && e2 == e,
        },
{
    let mut out: Vec<Candidate> = Vec::new();
    let mut i: usize = 0;
    while i < manifest.len()
        invariant
            i <= manifest@.len(),
            match manifest_scan(manifest@, i as int) {
                Ok(rest) => manifest_scan(manifest@, 0) matches Ok(all) && all == Seq::new(
                    out@.len(),
                    |k: int| candidate_v(out@[k]),
                ) + rest,
                Err(e) => manifest_scan(manifest@, 0) matches Err(e2) && e2 == e,
            },
        decreases manifest@.len() - i,
    {
        let entry = &manifest[i];
        if entry.matches.len() == 0 {
            proof {
                assert(manifest_scan(manifest@, i as int) == Err::<Seq<CandidateV>, RepoError>(
                    RepoError::NoMatchingPackage,
                ));
            }
            return Err(RepoError::NoMatchingPackage);
        }
        let ghost pre = out@;
        let mut j: usize = 0;
        while j < entry.matches.len()
            invariant
                i < manifest@.len(),
                entry == manifest@[i as int],
                entry.matches@.len() > 0,
                j <= entry.matches@.len(),
                Seq::new(out@.len(), |k: int| candidate_v(out@[k])) =~= Seq::new(
                    pre.len(),
                    |k: int| candidate_v(pre[k]),
                ) + manifest_candidates(manifest@[i as int]).take(j as int),
            decreases entry.matches@.len() - j,
        {
            let ghost prevout = out@;
            out.push(
                Candidate {
                    version: entry.version,
                    artifact: entry.matches[j].clone(),
                    package: entry.package.duplicate(),
                },
            );
            proof {
                let mc = manifest_candidates(manifest@[i as int]);
                assert(mc.take(j as int + 1) =~= mc.take(j as int).push(mc[j as int]));
                assert(candidate_v(out@.last()) == mc[j as int]);
                assert(Seq::new(out@.len(), |k: int| candidate_v(out@[k])) =~= Seq::new(
                    prevout.len(),
                    |k: int| candidate_v(prevout[k]),
                ).push(mc[j as int]));
                assert((Seq::new(pre.len(), |k: int| candidate_v(pre[k])) + mc.take(
                    j as int,
                )).push(mc[j as int]) =~= Seq::new(pre.len(), |k: int| candidate_v(pre[k]))
                    + mc.take(j as int).push(mc[j as int]));
                assert(Seq::new(out@.len(), |k: int| candidate_v(out@[k])) =~= Seq::new(
                    pre.len(),
                    |k: int| candidate_v(pre[k]),
                ) + mc.take(j as int + 1));
            }
            j = j + 1;
        }
        proof {
            assert(manifest_candidates(manifest@[i as int]).take(
                entry.matches@.len() as int,
            ) =~= manifest_candidates(manifest@[i as int]));
            match manifest_scan(manifest@, i as int + 1) {
                Ok(rest) => {
                    assert((Seq::new(pre.len(), |k: int| candidate_v(pre[k]))
                        + manifest_candidates(manifest@[i as int])) + rest =~= Seq::new(
                        pre.len(),
                        |k: int| candidate_v(pre[k]),
                    ) + (manifest_candidates(manifest@[i as int]) + rest));
                },
                Err(e) => {},
            }
        }
        i = i + 1;
    }
    let ghost manifest_all = Seq::new(out@.len(), |k: int| candidate_v(out@[k]));
    proof {
        assert(manifest_scan(manifest@, i as int) == Ok::<Seq<CandidateV>, RepoError>(Seq::empty()));
        assert(manifest_all + Seq::<CandidateV>::empty() =~= manifest_all);
    }
    let mut h: usize = 0;
    while h < freeform.len()
        invariant
            h <= freeform@.len(),
            manifest_scan(manifest@, 0) matches Ok(ma) && ma == manifest_all,
            match freeform_scan(freeform@, h as int) {
                Ok(rest) => freeform_scan(freeform@, 0) matches Ok(all) && manifest_all + all
                    == Seq::new(out@.len(), |k: int| candidate_v(out@[k])) + rest,
                Err(e) => freeform_scan(freeform@, 0) matches Err(e2) && e2 == e,
            },
        decreases freeform@.len() - h,
    {
        let entry = &freeform[h];
        if entry.matches.len() == 0 {
            proof {
                assert(freeform_scan(freeform@, h as int) == Err::<Seq<CandidateV>, RepoError>(
                    RepoError::NoMatchingPackage,
                ));
            }
            return Err(RepoError::NoMatchingPackage);
        }
        let ghost pre = out@;
        let mut j: usize = 0;
        while j < entry.matches.len()
            invariant
                h < freeform@.len(),
                entry == freeform@[h as int],
                entry.matches@.len() > 0,
                j <= entry.matches@.len(),
                manifest_scan(manifest@, 0) matches Ok(ma) && ma == manifest_all,
                (match freeform_scan(freeform@, h as int) {
                    Err(e) => freeform_scan(freeform@, 0) matches Err(e2) && e2 == e,
                    Ok(rest) => true,
                }),
                match freeform_candidates(freeform@[h as int], j as int) {
                    Ok(rest) => freeform_candidates(freeform@[h as int], 0) matches Ok(own)
                        && Seq::new(pre.len(), |k: int| candidate_v(pre[k])) + own == Seq::new(
                        out@.len(),
                        |k: int| candidate_v(out@[k]),
                    ) + rest,
                    Err(e) => freeform_candidates(freeform@[h as int], 0) matches Err(e2) && e2
                        == e,
                },
            decreases entry.matches@.len() - j,
        {
            let m = &entry.matches[j];
            match &m.0 {
                None => {
                    proof {
                        assert(freeform_candidates(freeform@[h as int], j as int) == Err::<
                            Seq<CandidateV>,
                            RepoError,
                        >(RepoError::MissingVersion));
                        assert(freeform_scan(freeform@, h as int) matches Err(e) && e
                            == RepoError::MissingVersion);
                    }
                    return Err(RepoError::MissingVersion);
                },
                Some(v) => {
                    let ghost prevout = out@;
                    out.push(
                        Candidate {
                            version: *v,
                            artifact: m.1.clone(),
                            package: entry.package.duplicate(),
                        },
                    );
                    proof {
                        match freeform_candidates(freeform@[h as int], j as int + 1) {
                            Ok(rest) => {
                                assert(Seq::new(out@.len(), |k: int| candidate_v(out@[k])) + rest
                                    =~= Seq::new(prevout.len(), |k: int| candidate_v(prevout[k]))
                                    + (seq![candidate_v(out@.last())] + rest));
                            },
                            Err(e) => {},
                        }
                    }
                },
            }
            j = j + 1;
        }
        proof {
            match freeform_candidates(freeform@[h as int], 0) {
                Ok(own) => {
                    match freeform_scan(freeform@, h as int + 1) {
                        Ok(rest) => {
                            assert((Seq::new(pre.len(), |k: int| candidate_v(pre[k])) + own) + rest
                                =~= Seq::new(pre.len(), |k: int| candidate_v(pre[k])) + (own
                                + rest));
                        },
                        Err(e) => {},
                    }
                },
                Err(e) => {},
            }
        }
        h = h + 1;
    }
    proof {
        assert(freeform_scan(freeform@, h as int) == Ok::<Seq<CandidateV>, RepoError>(Seq::empty()));
        match freeform_scan(freeform@, 0) {
            Ok(all) => {
                assert(manifest_all + all =~= Seq::new(out@.len(), |k: int| candidate_v(out@[k]))
                    + Seq::<CandidateV>::empty());
                assert(Seq::new(out@.len(), |k: int| candidate_v(out@[k])) + Seq::<
                    CandidateV,
                >::empty() =~= Seq::new(out@.len(), |k: int| candidate_v(out@[k])));
            },
            Err(e) => {},
        }
    }
    Ok(out)
}

/// Enforce the single-candidate invariant: exactly one candidate publishes;
/// none is an empty publish set, several are ambiguous. The full candidate
/// list is returned with the ambiguity error so the caller can report every
/// match.
pub fn pick_single_candidate(candidates: Vec<Candidate>) -> (r: Result<
    Candidate,
    (RepoError, Vec<Candidate>),
>)
    ensures
        candidates@.len() == 1 ==> (r matches Ok(c) && candidate_v(c) == candidate_v(
            candidates@[0],
        )),
        candidates@.len() == 0 ==> (r matches Err(e) && e.0 == RepoError::EmptyPublishSet),
        candidates@.len() > 1 ==> (r matches Err(e) && e.0 == RepoError::AmbiguousPublishSet
            && e.1@ == candidates@),
{
    if candidates.len() == 0 {
        return Err((RepoError::EmptyPublishSet, candidates));
    }
    if candidates.len() > 1 {
        return Err((RepoError::AmbiguousPublishSet, candidates));
    }
    let mut candidates = candidates;
    match candidates.pop() {
        Some(c) => Ok(c),
        None => Err((RepoError::EmptyPublishSet, candidates)),
    }
}

/// The publish-candidate invariant, end to end: collecting and picking
/// agree with the single decision function.
pub proof fn lemma_publish_decision(ms: Seq<ManifestPublish>, fs: Seq<FreeformResolved>)
    ensures
        match publish_decision(ms, fs) {
            Ok(c) => collected(ms, fs) matches Ok(cs) && cs.len() == 1 && cs[0] == c,
            Err(e) => (collected(ms, fs) matches Err(e2) && e2 == e) || (collected(
                ms,
                fs,
            ) matches Ok(cs) && ((cs.len() == 0 && e == RepoError::EmptyPublishSet) || (cs.len()
                > 1 && e == RepoError::AmbiguousPublishSet))),
        },
{
}

} // verus!

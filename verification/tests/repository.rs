use reproto::cache::{CacheLookup, CachedObjects};
use reproto::errors::RepoError;
use reproto::index::{index_from_path, FileIndex, IndexConfig};
use reproto::objects::{objects_from_path, FileObjects, NoObjects, ObjectsConfig};
use reproto::package::{Package, RequiredPackage};
use reproto::publish::{
    collect_candidates, pick_single_candidate, FreeformResolved, ManifestPublish,
};
use reproto::repository::Repository;
use reproto::scheme::{index_plan_from_url, objects_plan_from_url, IndexPlan, ObjectsPlan};
use reproto::version::{parse_version, parse_version_req, Version};
use reproto::Checksum;

fn pkg(parts: &[&str]) -> Package {
    Package::new(parts.iter().map(|p| p.to_string()).collect())
}

#[test]
fn checksum_is_deterministic() {
    let data = b"hello repository".to_vec();
    let a = Checksum::checksum(&data);
    let b = Checksum::checksum(&data);
    assert!(a.matches(&b));
}

#[test]
fn checksum_is_sha256() {
    let data = b"abc".to_vec();
    let c = Checksum::checksum(&data);
    let hex: String = c.to_hex().into_iter().collect();
    assert_eq!(hex, "ba7816bf8f01cfea414140de5dae2223b00361a396177a9cb410ff61f20015ad");
}

#[test]
fn put_then_get_round_trips() {
    let mut store = FileObjects::new(String::from("/tmp/objects"));
    let blob = b"artifact bytes".to_vec();
    let c = Checksum::checksum(&blob);
    store.put_object(&c, &blob, false).unwrap();
    let back = store.get_object(&c).unwrap();
    assert_eq!(back, blob);
}

#[test]
fn put_same_bytes_twice_is_a_no_op() {
    let mut store = FileObjects::new(String::from("/tmp/objects"));
    let blob = b"same".to_vec();
    let c = Checksum::checksum(&blob);
    store.put_object(&c, &blob, false).unwrap();
    assert!(store.put_object(&c, &blob, true).is_ok());
    assert_eq!(store.get_object(&c).unwrap(), blob);
}

#[test]
fn put_different_bytes_is_rejected_even_forced() {
    let mut store = FileObjects::new(String::from("/tmp/objects"));
    let blob = b"original".to_vec();
    let c = Checksum::checksum(&blob);
    store.put_object(&c, &blob, false).unwrap();
    let other = b"different".to_vec();
    assert_eq!(store.put_object(&c, &other, true), Err(RepoError::StoreInconsistency));
    assert_eq!(store.get_object(&c).unwrap(), blob);
}

#[test]
fn unconfigured_store_always_fails() {
    let mut none = NoObjects;
    let blob = b"x".to_vec();
    let c = Checksum::checksum(&blob);
    assert_eq!(none.put_object(&c, &blob, false), Err(RepoError::ObjectStoreUnconfigured));
    assert_eq!(none.get_object(&c), Err(RepoError::ObjectStoreUnconfigured));
}

#[test]
fn negative_cache_expires() {
    let local = FileObjects::new(String::from("/tmp/cache"));
    let mut cached = CachedObjects::new(local, 60_000);
    let blob = b"remote blob".to_vec();
    let c = Checksum::checksum(&blob);

    // First sight of an unknown checksum: the inner store must be asked.
    assert!(matches!(cached.lookup(&c, 1_000), CacheLookup::QueryInner));
    // The inner store reported a miss at t=1000.
    cached.record_miss(&c, 1_000);
    // Within the expiry the negative entry answers without a query.
    assert!(matches!(cached.lookup(&c, 30_000), CacheLookup::AbsentFresh));
    // At or past the expiry the inner store is queried again.
    assert!(matches!(cached.lookup(&c, 61_000), CacheLookup::QueryInner));
    // A later successful fetch populates the local cache for good.
    cached.record_hit(&c, &blob).unwrap();
    match cached.lookup(&c, 120_000) {
        CacheLookup::Hit(b) => assert_eq!(b, blob),
        _ => panic!("expected a cache hit"),
    }
}

#[test]
fn resolve_filters_by_constraint() {
    let mut index = FileIndex::new(String::from("/tmp/index"), String::from("objects"));
    let p = pkg(&["demo", "pkg"]);
    for v in ["0.9.0", "1.0.0", "1.5.0", "2.0.0"] {
        let blob = v.as_bytes().to_vec();
        let c = Checksum::checksum(&blob);
        index.put_version(&c, &p, &parse_version(v.as_bytes()).unwrap()).unwrap();
    }
    let req = parse_version_req(b">=1.0.0,<2.0.0").unwrap();
    let hits = index.resolve(&p, Some(&req));
    let versions: Vec<Version> = hits.iter().map(|d| d.version).collect();
    assert_eq!(versions, vec![Version::new(1, 0, 0), Version::new(1, 5, 0)]);
    // No constraint returns every recorded deployment.
    assert_eq!(index.resolve(&p, None).len(), 4);
    // An unknown package resolves to an empty list, not an error.
    assert_eq!(index.resolve(&pkg(&["other"]), None).len(), 0);
}

#[test]
fn publish_conflict_policy() {
    let index = FileIndex::new(String::from("/tmp/index"), String::from("objects"));
    let objects = FileObjects::new(String::from("/tmp/objects"));
    let mut repo = Repository::new(index, objects);
    let p = pkg(&["demo"]);
    let v = Version::new(1, 0, 0);

    let first = b"first artifact".to_vec();
    repo.publish(&first, &p, &v, false).unwrap();

    // Republishing different content for the same version without force
    // fails and leaves the index unchanged.
    let second = b"second artifact".to_vec();
    assert_eq!(repo.publish(&second, &p, &v, false), Err(RepoError::VersionConflict));
    let got = repo.resolve(&RequiredPackage::new(pkg(&["demo"]), None)).unwrap();
    assert_eq!(got.len(), 1);
    assert_eq!(got[0].0, first);

    // Forcing overwrites the version mapping.
    repo.publish(&second, &p, &v, true).unwrap();
    let got = repo.resolve(&RequiredPackage::new(pkg(&["demo"]), None)).unwrap();
    assert_eq!(got.len(), 1);
    assert_eq!(got[0].0, second);
    assert_eq!(got[0].1, Some(v));

    // Republishing identical content is idempotent.
    repo.publish(&second, &p, &v, false).unwrap();
}

#[test]
fn publish_candidates_exactly_one() {
    // Zero candidates in total: an empty publish set.
    let r = collect_candidates(Vec::new(), Vec::new()).unwrap();
    assert!(r.is_empty());
    match pick_single_candidate(r) {
        Err((e, _)) => assert_eq!(e, RepoError::EmptyPublishSet),
        Ok(_) => panic!("expected an error"),
    }

    // Two candidates: both are reported, then the set is ambiguous.
    let manifest = vec![ManifestPublish {
        package: pkg(&["demo"]),
        version: Version::new(1, 0, 0),
        matches: vec![String::from("a.reproto"), String::from("b.reproto")],
    }];
    let r = collect_candidates(manifest, Vec::new()).unwrap();
    assert_eq!(r.len(), 2);
    match pick_single_candidate(r) {
        Err((e, all)) => {
            assert_eq!(e, RepoError::AmbiguousPublishSet);
            assert_eq!(all.len(), 2);
            assert_eq!(all[0].artifact, "a.reproto");
            assert_eq!(all[1].artifact, "b.reproto");
        },
        Ok(_) => panic!("expected an error"),
    }

    // Exactly one candidate: it carries the manifest's fields.
    let manifest = vec![ManifestPublish {
        package: pkg(&["demo"]),
        version: Version::new(1, 2, 3),
        matches: vec![String::from("only.reproto")],
    }];
    let r = collect_candidates(manifest, Vec::new()).unwrap();
    let c = pick_single_candidate(r).ok().unwrap();
    assert_eq!(c.version, Version::new(1, 2, 3));
    assert_eq!(c.artifact, "only.reproto");
}

#[test]
fn publish_candidates_errors() {
    // A manifest entry that resolved to nothing is a hard failure.
    let manifest = vec![ManifestPublish {
        package: pkg(&["demo"]),
        version: Version::new(1, 0, 0),
        matches: Vec::new(),
    }];
    assert!(matches!(collect_candidates(manifest, Vec::new()), Err(RepoError::NoMatchingPackage)));

    // A free-form match without an embedded version is a hard failure.
    let freeform = vec![FreeformResolved {
        package: pkg(&["demo"]),
        matches: vec![(None, String::from("x.reproto"))],
    }];
    assert!(matches!(collect_candidates(Vec::new(), freeform), Err(RepoError::MissingVersion)));

    // A free-form entry that resolved to nothing is a hard failure.
    let freeform = vec![FreeformResolved { package: pkg(&["demo"]), matches: Vec::new() }];
    assert!(matches!(collect_candidates(Vec::new(), freeform), Err(RepoError::NoMatchingPackage)));
}

#[test]
fn scheme_dispatch() {
    let config = ObjectsConfig {
        repo_dir: String::from("/tmp/repos"),
        cache_dir: None,
        missing_cache_time: None,
    };

    // file:// with an existing directory opens a store rooted there.
    match objects_plan_from_url(&config, "file:///existing/dir").unwrap() {
        ObjectsPlan::File { path } => {
            assert_eq!(path, "/existing/dir");
            let store = objects_from_path(path, true).unwrap();
            assert_eq!(store.root(), "/existing/dir");
        },
        _ => panic!("expected a file plan"),
    }

    // file:// with a missing directory fails as not a directory.
    match objects_plan_from_url(&config, "file:///missing/dir").unwrap() {
        ObjectsPlan::File { path } => {
            assert_eq!(objects_from_path(path, false).err(), Some(RepoError::NotADirectory));
        },
        _ => panic!("expected a file plan"),
    }

    // git+https plans a git-backed store, checked out under the configured
    // repo directory, over the https protocol.
    match objects_plan_from_url(&config, "git+https://host/repo.git").unwrap() {
        ObjectsPlan::Git { root, sub_scheme, url } => {
            assert_eq!(root, "/tmp/repos");
            assert_eq!(sub_scheme, "https");
            assert_eq!(url, "git+https://host/repo.git");
        },
        _ => panic!("expected a git plan"),
    }

    // Any other scheme is unsupported.
    assert_eq!(objects_plan_from_url(&config, "ftp://host").err(), Some(RepoError::UnsupportedScheme));

    // http:// with a cache directory plans a cached store with the
    // sixty-second default expiry.
    let cached_config = ObjectsConfig {
        repo_dir: String::from("/tmp/repos"),
        cache_dir: Some(String::from("/tmp/cache")),
        missing_cache_time: None,
    };
    match objects_plan_from_url(&cached_config, "http://host/objects").unwrap() {
        ObjectsPlan::Http { url, cache } => {
            assert_eq!(url, "http://host/objects");
            let (dir, ttl) = cache.unwrap();
            assert_eq!(dir, "/tmp/cache");
            assert_eq!(ttl, 60_000);
        },
        _ => panic!("expected an http plan"),
    }

    // Indexes support file and git only; a git index checks out under the
    // configured repos directory and needs one.
    let index_config = IndexConfig { repos: Some(String::from("/tmp/repos")) };
    assert!(matches!(
        index_plan_from_url(&index_config, "file:///somewhere"),
        Ok(IndexPlan::File { .. })
    ));
    match index_plan_from_url(&index_config, "git+ssh://host/x").unwrap() {
        IndexPlan::Git { root, sub_scheme, url } => {
            assert_eq!(root, "/tmp/repos");
            assert_eq!(sub_scheme, "ssh");
            assert_eq!(url, "git+ssh://host/x");
        },
        _ => panic!("expected a git plan"),
    }
    assert_eq!(
        index_plan_from_url(&index_config, "http://host").err(),
        Some(RepoError::UnsupportedScheme)
    );

    // A git index without a configured repos directory is refused.
    let unconfigured = IndexConfig { repos: None };
    assert_eq!(
        index_plan_from_url(&unconfigured, "git+ssh://host/x").err(),
        Some(RepoError::ReposUnconfigured)
    );
    // A plain git scheme with no sub-scheme is a bad scheme.
    assert_eq!(
        index_plan_from_url(&index_config, "git://host/x").err(),
        Some(RepoError::UnsupportedScheme)
    );
}

#[test]
fn index_directory_rule() {
    // An existing directory opens an empty index rooted there.
    let ix = index_from_path(String::from("/tmp/index"), String::from("objects"), true).unwrap();
    assert_eq!(ix.objects_url(), "objects");
    // A missing directory fails as not a directory.
    assert_eq!(
        index_from_path(String::from("/missing"), String::from("objects"), false).err(),
        Some(RepoError::NotADirectory)
    );
}

#[test]
fn put_version_then_get_deployments_is_single() {
    let mut index = FileIndex::new(String::from("/tmp/index"), String::from("objects"));
    let p = pkg(&["demo"]);
    let v = Version::new(1, 0, 0);
    let first = Checksum::checksum(&b"one".to_vec());
    index.put_version(&first, &p, &v).unwrap();
    let got = index.get_deployments(&p, &v);
    assert_eq!(got.len(), 1);
    assert!(got[0].object.matches(&first));

    // Overwriting the same version replaces the single record in place.
    let second = Checksum::checksum(&b"two".to_vec());
    index.put_version(&second, &p, &v).unwrap();
    let got = index.get_deployments(&p, &v);
    assert_eq!(got.len(), 1);
    assert!(got[0].object.matches(&second));
    assert_eq!(index.resolve(&p, None).len(), 1);
}

#[test]
fn store_inconsistency_on_missing_blob() {
    let mut index = FileIndex::new(String::from("/tmp/index"), String::from("objects"));
    let objects = FileObjects::new(String::from("/tmp/objects"));
    let p = pkg(&["demo"]);
    let blob = b"content".to_vec();
    let c = Checksum::checksum(&blob);
    // Record a deployment whose blob was never stored.
    index.put_version(&c, &p, &Version::new(1, 0, 0)).unwrap();
    let repo = Repository::new(index, objects);
    assert!(matches!(
        repo.resolve(&RequiredPackage::new(pkg(&["demo"]), None)),
        Err(RepoError::StoreInconsistency)
    ));
}

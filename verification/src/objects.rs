//! Object stores: content-addressable blob storage keyed by checksum.
//!
//! Blobs are write-once per checksum: storing the same checksum twice with
//! identical bytes is a no-op, and storing different bytes under a held
//! checksum is rejected whatever the caller forces.

use vstd::prelude::*;

use crate::checksum::Checksum;
use crate::errors::RepoError;

verus! {

broadcast use vstd::seq::group_seq_axioms, vstd::std_specs::vec::group_vec_axioms;

/// Configuration for object-store backends.
#[derive(Debug)]
pub struct ObjectsConfig {
    /// Root path for checking out local repositories.
    pub repo_dir: String,
    /// Local cache directory, when remote stores should be cached.
    pub cache_dir: Option<String>,
    /// How long a confirmed-absent entry stays trusted, in milliseconds.
    pub missing_cache_time: Option<u64>,
}

/// The negative-cache expiry used when none is configured: sixty seconds.
pub open spec fn default_missing_cache_time() -> u64 {
    60000
}

impl ObjectsConfig {
    /// The configured negative-cache expiry, or the sixty-second default.
    pub fn effective_missing_cache_time(&self) -> (r: u64)
        ensures
            r == match self.missing_cache_time {
                Some(t) => t,
                None => default_missing_cache_time(),
            },
    {
        match self.missing_cache_time {
            Some(t) => t,
            None => 60000,
        }
    }
}

/// The safe default store: every operation fails as unconfigured.
#[derive(Debug)]
pub struct NoObjects;

impl NoObjects {
    /// Always fails: no store is configured.
    pub fn put_object(&mut self, checksum: &Checksum, source: &Vec<u8>, force: bool) -> (r: Result<
        (),
        RepoError,
    >)
        ensures
            r matches Err(e) && e == RepoError::ObjectStoreUnconfigured,
    {
        Err(RepoError::ObjectStoreUnconfigured)
    }

    /// Always fails: no store is configured.
    pub fn get_object(&mut self, checksum: &Checksum) -> (r: Result<Option<Vec<u8>>, RepoError>)
        ensures
            r matches Err(e) && e == RepoError::ObjectStoreUnconfigured,
    {
        Err(RepoError::ObjectStoreUnconfigured)
    }
}

/// The blobs held by an entry list, as a map from digest bytes to content.
pub open spec fn entries_map(s: Seq<(Checksum, Vec<u8>)>) -> Map<Seq<u8>, Seq<u8>>
    decreases s.len(),
{
    if s.len() == 0 {
        Map::empty()
    } else {
        entries_map(s.drop_last()).insert(s.last().0@, s.last().1@)
    }
}

/// A key is held exactly when some entry carries it.
pub broadcast proof fn lemma_entries_map_dom(s: Seq<(Checksum, Vec<u8>)>, k: Seq<u8>)
    ensures
        #[trigger] entries_map(s).contains_key(k) <==> exists|i: int|
            0 <= i < s.len() && s[i].0@ == k,
    decreases s.len(),
{
    if s.len() > 0 {
        lemma_entries_map_dom(s.drop_last(), k);
        if entries_map(s).contains_key(k) {
            if s.last().0@ == k {
                assert(s[s.len() - 1].0@ == k);
            } else {
                let i = choose|i: int| 0 <= i < s.drop_last().len() && s.drop_last()[i].0@ == k;
                assert(s[i].0@ == k);
            }
        }
        if exists|i: int| 0 <= i < s.len() && s[i].0@ == k {
            let i = choose|i: int| 0 <= i < s.len() && s[i].0@ == k;
            if i < s.len() - 1 {
                assert(s.drop_last()[i].0@ == k);
            }
        }
    }
}

/// With unique keys, the map returns each entry's own content.
pub broadcast proof fn lemma_entries_map_at(s: Seq<(Checksum, Vec<u8>)>, i: int)
    requires
        0 <= i < s.len(),
        forall|a: int, b: int| 0 <= a < b < s.len() ==> s[a].0@ != s[b].0@,
    ensures
        #[trigger] entries_map(s)[s[i].0@] == s[i].1@,
    decreases s.len(),
{
    if i == s.len() - 1 {
    } else {
        lemma_entries_map_at(s.drop_last(), i);
        assert(s.drop_last()[i] == s[i]);
        assert(s.last().0@ != s[i].0@);
    }
}

/// A local store rooted at a directory, holding one blob per checksum.
#[derive(Debug)]
pub struct FileObjects {
    root: String,
    entries: Vec<(Checksum, Vec<u8>)>,
}

impl FileObjects {
    /// The blobs held, keyed by digest bytes.
    pub closed spec fn view(&self) -> Map<Seq<u8>, Seq<u8>> {
        entries_map(self.entries@)
    }

    /// The directory the store is rooted at.
    pub closed spec fn root_view(&self) -> Seq<char> {
        self.root@
    }

    /// Each checksum is held at most once.
    pub closed spec fn wf(&self) -> bool {
        forall|a: int, b: int|
            0 <= a < b < self.entries@.len() ==> self.entries@[a].0@ != self.entries@[b].0@
    }

    /// An empty store rooted at the given directory.
    pub fn new(root: String) -> (r: FileObjects)
        ensures
            r@ == Map::<Seq<u8>, Seq<u8>>::empty(),
            r.root_view() == root@,
            r.wf(),
    {
        let r = FileObjects { root, entries: Vec::new() };
        proof {
            assert(r@ =~= Map::<Seq<u8>, Seq<u8>>::empty());
        }
        r
    }

    /// The root directory.
    pub fn root(&self) -> (r: &String)
        ensures
            r@ == self.root_view(),
    {
        &self.root
    }

    fn find(&self, checksum: &Checksum) -> (r: Option<usize>)
        requires
            self.wf(),
        ensures
            match r {
                Some(i) => i < self.entries@.len() && self.entries@[i as int].0@ == checksum@
                    && self@.contains_key(checksum@) && self@[checksum@]
                    == self.entries@[i as int].1@,
                None => !self@.contains_key(checksum@),
            },
    {
        let mut i: usize = 0;
        while i < self.entries.len()
            invariant
                self.wf(),
                i <= self.entries@.len(),
                forall|j: int| 0 <= j < i ==> self.entries@[j].0@ != checksum@,
            decreases self.entries@.len() - i,
        {
            if self.entries[i].0.matches(checksum) {
                proof {
                    lemma_entries_map_dom(self.entries@, checksum@);
                    lemma_entries_map_at(self.entries@, i as int);
                }
                return Some(i);
            }
            i = i + 1;
        }
        proof {
            broadcast use lemma_entries_map_dom;

            if self@.contains_key(checksum@) {
                let j = choose|j: int|
                    0 <= j < self.entries@.len() && self.entries@[j].0@ == checksum@;
                assert(false);
            }
        }
        None
    }

    /// Persist bytes under their checksum. Storing identical bytes twice is
    /// a no-op; storing different bytes under a held checksum is rejected
    /// whatever `force` says, since it would break content addressing.
    pub fn put_object(&mut self, checksum: &Checksum, source: &Vec<u8>, force: bool) -> (r: Result<
        (),
        RepoError,
    >)
        requires
            old(self).wf(),
        ensures
            final(self).wf(),
            final(self).root_view() == old(self).root_view(),
            match r {
                Ok(u) => (!old(self)@.contains_key(checksum@) || old(self)@[checksum@] == source@)
                    && final(self)@ == old(self)@.insert(checksum@, source@),
                Err(e) => e == RepoError::StoreInconsistency && old(self)@.contains_key(checksum@)
                    && old(self)@[checksum@] != source@ && final(self)@ == old(self)@,
            },
    {
        match self.find(checksum) {
            Some(i) => {
                let held = &self.entries[i].1;
                if bytes_eq(held, source) {
                    proof {
                        assert(self@.insert(checksum@, source@) =~= self@);
                    }
                    Ok(())
                } else {
                    Err(RepoError::StoreInconsistency)
                }
            },
            None => {
                let ghost pre = self.entries@;
                let mut copy: Vec<u8> = Vec::new();
                copy_bytes(source, &mut copy);
                self.entries.push((checksum.duplicate(), copy));
                proof {
                    assert(self.entries@.drop_last() =~= pre);
                    assert(forall|a: int, b: int|
                        0 <= a < b < self.entries@.len() ==> self.entries@[a].0@
                            != self.entries@[b].0@) by {
                        broadcast use lemma_entries_map_dom;

                        assert(forall|a: int|
                            0 <= a < pre.len() ==> self.entries@[a] == pre[a]);
                        if exists|a: int| 0 <= a < pre.len() && pre[a].0@ == checksum@ {
                            let a = choose|a: int| 0 <= a < pre.len() && pre[a].0@ == checksum@;
                            assert(entries_map(pre).contains_key(checksum@));
                            assert(false);
                        }
                    };
                    assert(self@ =~= entries_map(pre).insert(checksum@, source@));
                }
                Ok(())
            },
        }
    }

    /// Fetch the blob stored under a checksum, or report it absent.
    pub fn get_object(&self, checksum: &Checksum) -> (r: Option<Vec<u8>>)
        requires
            self.wf(),
        ensures
            match r {
                Some(v) => self@.contains_key(checksum@) && v@ == self@[checksum@],
                None => !self@.contains_key(checksum@),
            },
    {
        match self.find(checksum) {
            Some(i) => {
                let mut copy: Vec<u8> = Vec::new();
                copy_bytes(&self.entries[i].1, &mut copy);
                Some(copy)
            },
            None => None,
        }
    }

    /// Refresh local mirrors: nothing to do for a plain directory store.
    pub fn update(&self) -> (r: Vec<String>)
        ensures
            r@.len() == 0,
    {
        Vec::new()
    }
}

/// Whether two byte vectors hold the same bytes.
pub fn bytes_eq(a: &Vec<u8>, b: &Vec<u8>) -> (r: bool)
    ensures
        r == (a@ == b@),
{
    if a.len() != b.len() {
        proof {
            assert(a@ != b@);
        }
        return false;
    }
    let mut i: usize = 0;
    while i < a.len()
        invariant
            i <= a@.len(),
            a@.len() == b@.len(),
            forall|j: int| 0 <= j < i ==> a@[j] == b@[j],
        decreases a@.len() - i,
    {
        if a[i] != b[i] {
            proof {
                assert(a@ != b@);
            }
            return false;
        }
        i = i + 1;
    }
    proof {
        assert(a@ =~= b@);
    }
    true
}

/// Append a copy of `src` to `dst`.
pub fn copy_bytes(src: &Vec<u8>, dst: &mut Vec<u8>)
    ensures
        final(dst)@ == old(dst)@ + src@,
{
    let mut i: usize = 0;
    while i < src.len()
        invariant
            i <= src@.len(),
            dst@ =~= old(dst)@ + src@.subrange(0, i as int),
        decreases src@.len() - i,
    {
        dst.push(src[i]);
        i = i + 1;
    }
    proof {
        assert(dst@ =~= old(dst)@ + src@);
    }
}

/// Open a local store rooted at a path; the caller reports whether the path
/// exists as a directory.
pub fn objects_from_path(path: String, path_is_dir: bool) -> (r: Result<FileObjects, RepoError>)
    ensures
        path_is_dir ==> (r matches Ok(o) && o@ == Map::<Seq<u8>, Seq<u8>>::empty()
            && o.root_view() == path@ && o.wf()),
        !path_is_dir ==> (r matches Err(e) && e == RepoError::NotADirectory),
{
    if !path_is_dir {
        return Err(RepoError::NotADirectory);
    }
    Ok(FileObjects::new(path))
}

/// What a store holds after a successful put: the stored bytes stand under
/// their checksum, so an immediate get returns exactly them.
pub proof fn lemma_put_get_round_trip(m: Map<Seq<u8>, Seq<u8>>, c: Seq<u8>, b: Seq<u8>)
    ensures
        m.insert(c, b).contains_key(c),
        m.insert(c, b)[c] == b,
{
}

} // verus!

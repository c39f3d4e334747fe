//! Scheme dispatch: pick the store family a URL names and plan its
//! construction from configuration.

use vstd::prelude::*;

use crate::errors::RepoError;
use crate::index::IndexConfig;
use crate::objects::{default_missing_cache_time, ObjectsConfig};
use crate::text::{chars_to_string, str_chars};

verus! {

broadcast use vstd::seq::group_seq_axioms, vstd::std_specs::vec::group_vec_axioms;

/// The first position of `c` in `s` at or after `from`, or the length.
pub open spec fn find_char(s: Seq<char>, c: char, from: int) -> int
    decreases s.len() - from,
{
    if from < 0 || from >= s.len() {
        s.len() as int
    } else if s[from] == c {
        from
    } else {
        find_char(s, c, from + 1)
    }
}

fn find_char_exec(s: &Vec<char>, c: char, from: usize) -> (r: usize)
    requires
        from <= s@.len(),
    ensures
        r == find_char(s@, c, from as int),
        from <= r <= s@.len(),
    decreases s@.len() - from,
{
    if from >= s.len() {
        return s.len();
    }
    if s[from] == c {
        return from;
    }
    find_char_exec(s, c, from + 1)
}

/// Where a URL splits into scheme and remainder: the position of the first
/// colon, provided `"://"` follows there.
pub open spec fn scheme_split(s: Seq<char>) -> Option<int> {
    let i = find_char(s, ':', 0);
    if i + 2 < s.len() && s[i + 1] == '/' && s[i + 2] == '/' {
        Some(i)
    } else {
        None
    }
}

/// The construction a URL plans for an object store: the family named by
/// the scheme's first segment, with what each backend needs.
#[derive(Debug)]
pub enum ObjectsPlan {
    /// A local directory store rooted at the URL's path; the path must
    /// exist as a directory.
    File { path: String },
    /// A store over a git checkout held under the configured `root`;
    /// `sub_scheme` names the protocol git itself uses.
    Git { root: String, sub_scheme: String, url: String },
    /// A remote HTTP store; `cache` carries the cache directory and the
    /// negative-cache expiry when caching is configured.
    Http { url: String, cache: Option<(String, u64)> },
}

/// The mathematical content of an objects plan.
#[verifier::ext_equal]
pub ghost enum ObjectsPlanV {
    File { path: Seq<char> },
    Git { root: Seq<char>, sub_scheme: Seq<char>, url: Seq<char> },
    Http { url: Seq<char>, cache: Option<(Seq<char>, u64)> },
}

/// The content of an objects plan.
pub open spec fn objects_plan_v(p: ObjectsPlan) -> ObjectsPlanV {
    match p {
        ObjectsPlan::File { path } => ObjectsPlanV::File { path: path@ },
        ObjectsPlan::Git { root, sub_scheme, url } => ObjectsPlanV::Git {
            root: root@,
            sub_scheme: sub_scheme@,
            url: url@,
        },
        ObjectsPlan::Http { url, cache } => ObjectsPlanV::Http {
            url: url@,
            cache: match cache {
                Some(c) => Some((c.0@, c.1)),
                None => None,
            },
        },
    }
}

/// The plan an object-store URL yields: split the scheme on `+`; `file`
/// takes the remainder as a path, `git` requires a sub-scheme, `http`
/// plans a remote store wrapped in a cache when one is configured, and
/// anything else is unsupported.
pub open spec fn spec_objects_plan(
    url: Seq<char>,
    repo_dir: Seq<char>,
    cache_dir: Option<Seq<char>>,
    missing_cache_time: Option<u64>,
) -> Result<ObjectsPlanV, RepoError> {
    match scheme_split(url) {
        None => Err(RepoError::UnsupportedScheme),
        Some(i) => {
            let scheme = url.take(i);
            let rest = url.skip(i + 3);
            let p = find_char(scheme, '+', 0);
            let family = scheme.take(p);
            if family == "file"@ {
                Ok(ObjectsPlanV::File { path: rest })
            } else if family == "git"@ {
                if p >= scheme.len() {
                    Err(RepoError::UnsupportedScheme)
                } else {
                    Ok(
                        ObjectsPlanV::Git {
                            root: repo_dir,
                            sub_scheme: scheme.skip(p + 1),
                            url,
                        },
                    )
                }
            } else if family == "http"@ {
                Ok(
                    ObjectsPlanV::Http {
                        url,
                        cache: match cache_dir {
                            Some(d) => Some(
                                (
                                    d,
                                    match missing_cache_time {
                                        Some(t) => t,
                                        None => default_missing_cache_time(),
                                    },
                                ),
                            ),
                            None => None,
                        },
                    },
                )
            } else {
                Err(RepoError::UnsupportedScheme)
            }
        },
    }
}

/// Plan the object store a URL names, under the given configuration.
pub fn objects_plan_from_url(config: &ObjectsConfig, url: &str) -> (r: Result<
    ObjectsPlan,
    RepoError,
>)
    ensures
        match spec_objects_plan(
            url@,
            config.repo_dir@,
            match config.cache_dir {
                Some(d) => Some(d@),
                None => None,
            },
            config.missing_cache_time,
        ) {
            Ok(p) => r matches Ok(plan) && objects_plan_v(plan) == p,
            Err(e) => r matches Err(e2) && e2 == e,
        },
{
    let chars = str_chars(url);
    let i = find_char_exec(&chars, ':', 0);
    if !(chars.len() >= 3 && i < chars.len() - 2 && chars[i + 1] == '/' && chars[i + 2] == '/') {
        proof {
            assert(scheme_split(chars@) is None);
        }
        return Err(RepoError::UnsupportedScheme);
    }
    let scheme = copy_range(&chars, 0, i);
    let rest = copy_range(&chars, i + 3, chars.len());
    let p = find_char_exec(&scheme, '+', 0);
    let family = copy_range(&scheme, 0, p);
    if chars_are(&family, "file") {
        let path = chars_to_string(&rest);
        Ok(ObjectsPlan::File { path })
    } else if chars_are(&family, "git") {
        if p >= scheme.len() {
            return Err(RepoError::UnsupportedScheme);
        }
        let sub = copy_range(&scheme, p + 1, scheme.len());
        Ok(
            ObjectsPlan::Git {
                root: config.repo_dir.clone(),
                sub_scheme: chars_to_string(&sub),
                url: url.to_owned(),
            },
        )
    } else if chars_are(&family, "http") {
        let cache = match &config.cache_dir {
            Some(d) => Some((d.clone(), config.effective_missing_cache_time())),
            None => None,
        };
        Ok(ObjectsPlan::Http { url: url.to_owned(), cache })
    } else {
        Err(RepoError::UnsupportedScheme)
    }
}

/// The construction a URL plans for a version index: only `file` and `git`
/// back an index.
#[derive(Debug)]
pub enum IndexPlan {
    /// A local directory index rooted at the URL's path.
    File { path: String },
    /// An index over a git checkout held under the configured repos
    /// directory.
    Git { root: String, sub_scheme: String, url: String },
}

/// The mathematical content of an index plan.
#[verifier::ext_equal]
pub ghost enum IndexPlanV {
    File { path: Seq<char> },
    Git { root: Seq<char>, sub_scheme: Seq<char>, url: Seq<char> },
}

/// The content of an index plan.
pub open spec fn index_plan_v(p: IndexPlan) -> IndexPlanV {
    match p {
        IndexPlan::File { path } => IndexPlanV::File { path: path@ },
        IndexPlan::Git { root, sub_scheme, url } => IndexPlanV::Git {
            root: root@,
            sub_scheme: sub_scheme@,
            url: url@,
        },
    }
}

/// The plan an index URL yields: `file` or `git+<scheme>`; anything else
/// is unsupported. A git index needs a configured repos directory to hold
/// its checkout.
pub open spec fn spec_index_plan(url: Seq<char>, repos: Option<Seq<char>>) -> Result<
    IndexPlanV,
    RepoError,
> {
    match scheme_split(url) {
        None => Err(RepoError::UnsupportedScheme),
        Some(i) => {
            let scheme = url.take(i);
            let rest = url.skip(i + 3);
            let p = find_char(scheme, '+', 0);
            let family = scheme.take(p);
            if family == "file"@ {
                Ok(IndexPlanV::File { path: rest })
            } else if family == "git"@ {
                if p >= scheme.len() {
                    Err(RepoError::UnsupportedScheme)
                } else {
                    match repos {
                        None => Err(RepoError::ReposUnconfigured),
                        Some(root) => Ok(
                            IndexPlanV::Git { root, sub_scheme: scheme.skip(p + 1), url },
                        ),
                    }
                }
            } else {
                Err(RepoError::UnsupportedScheme)
            }
        },
    }
}

/// Plan the index a URL names, under the given configuration.
pub fn index_plan_from_url(config: &IndexConfig, url: &str) -> (r: Result<IndexPlan, RepoError>)
    ensures
        match spec_index_plan(
            url@,
            match config.repos {
                Some(d) => Some(d@),
                None => None,
            },
        ) {
            Ok(p) => r matches Ok(plan) && index_plan_v(plan) == p,
            Err(e) => r matches Err(e2) && e2 == e,
        },
{
    let chars = str_chars(url);
    let i = find_char_exec(&chars, ':', 0);
    if !(chars.len() >= 3 && i < chars.len() - 2 && chars[i + 1] == '/' && chars[i + 2] == '/') {
        proof {
            assert(scheme_split(chars@) is None);
        }
        return Err(RepoError::UnsupportedScheme);
    }
    let scheme = copy_range(&chars, 0, i);
    let rest = copy_range(&chars, i + 3, chars.len());
    let p = find_char_exec(&scheme, '+', 0);
    let family = copy_range(&scheme, 0, p);
    if chars_are(&family, "file") {
        Ok(IndexPlan::File { path: chars_to_string(&rest) })
    } else if chars_are(&family, "git") {
        if p >= scheme.len() {
            return Err(RepoError::UnsupportedScheme);
        }
        let root = match &config.repos {
            None => {
                return Err(RepoError::ReposUnconfigured);
            },
            Some(d) => d.clone(),
        };
        let sub = copy_range(&scheme, p + 1, scheme.len());
        Ok(
            IndexPlan::Git {
                root,
                sub_scheme: chars_to_string(&sub),
                url: url.to_owned(),
            },
        )
    } else {
        Err(RepoError::UnsupportedScheme)
    }
}

/// The characters of `s` between two positions.
fn copy_range(s: &Vec<char>, from: usize, to: usize) -> (r: Vec<char>)
    requires
        from <= to <= s@.len(),
    ensures
        r@ == s@.subrange(from as int, to as int),
{
    let mut r: Vec<char> = Vec::new();
    let mut i: usize = from;
    while i < to
        invariant
            from <= i <= to <= s@.len(),
            r@ =~= s@.subrange(from as int, i as int),
        decreases to - i,
    {
        r.push(s[i]);
        proof {
            assert(r@ =~= s@.subrange(from as int, i as int + 1));
        }
        i = i + 1;
    }
    r
}

/// Whether a character buffer holds exactly the given text.
fn chars_are(s: &Vec<char>, text: &str) -> (r: bool)
    ensures
        r == (s@ == text@),
{
    let n = text.unicode_len();
    if s.len() != n {
        proof {
            assert(s@ != text@);
        }
        return false;
    }
    let mut i: usize = 0;
    while i < n
        invariant
            i <= n,
            n == text@.len(),
            n == s@.len(),
            forall|j: int| 0 <= j < i ==> s@[j] == text@[j],
        decreases n - i,
    {
        if s[i] != text.get_char(i) {
            proof {
                assert(s@ != text@);
            }
            return false;
        }
        i = i + 1;
    }
    proof {
        assert(s@ =~= text@);
    }
    true
}

} // verus!

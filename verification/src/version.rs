//! Semantic versions and version constraints.

use vstd::prelude::*;

verus! {

/// A release version: its major, minor and patch numbers. Pre-release and
/// build identifiers are outside this model; every held version is a plain
/// release.
#[derive(Clone, Copy, Debug, PartialEq, Eq, Structural)]
pub struct Version {
    pub major: u64,
    pub minor: u64,
    pub patch: u64,
}

/// Strict precedence order on versions: by major, then minor, then patch.
pub open spec fn version_lt(a: Version, b: Version) -> bool {
    a.major < b.major || (a.major == b.major && (a.minor < b.minor || (a.minor == b.minor
        && a.patch < b.patch)))
}

impl Version {
    /// A version from its three numbers.
    pub fn new(major: u64, minor: u64, patch: u64) -> (v: Version)
        ensures
            v == (Version { major, minor, patch }),
    {
        Version { major, minor, patch }
    }

    /// Whether this version precedes another.
    pub fn lt(&self, other: &Version) -> (r: bool)
        ensures
            r == version_lt(*self, *other),
    {
        self.major < other.major || (self.major == other.major && (self.minor < other.minor || (
        self.minor == other.minor && self.patch < other.patch)))
    }
}

/// A comparison operator of a version constraint.
#[derive(Clone, Copy, Debug, PartialEq, Eq, Structural)]
pub enum Op {
    /// Strictly below.
    Lt,
    /// At or below.
    Le,
    /// Strictly above.
    Gt,
    /// At or above.
    Ge,
    /// Exactly equal.
    Exact,
}

/// One comparator of a version constraint.
#[derive(Clone, Copy, Debug, PartialEq, Eq, Structural)]
pub struct Comparator {
    pub op: Op,
    pub version: Version,
}

/// Whether a version satisfies one comparator.
pub open spec fn comparator_matches(c: Comparator, v: Version) -> bool {
    match c.op {
        Op::Lt => version_lt(v, c.version),
        Op::Le => version_lt(v, c.version) || v == c.version,
        Op::Gt => version_lt(c.version, v),
        Op::Ge => version_lt(c.version, v) || v == c.version,
        Op::Exact => v == c.version,
    }
}

/// Whether a version satisfies every comparator of a constraint.
pub open spec fn req_matches(cs: Seq<Comparator>, v: Version) -> bool {
    forall|i: int| 0 <= i < cs.len() ==> comparator_matches(#[trigger] cs[i], v)
}

/// A version constraint: a conjunction of comparators.
#[derive(Clone, Debug)]
pub struct VersionReq {
    pub comparators: Vec<Comparator>,
}

impl VersionReq {
    /// A constraint from its comparators.
    pub fn new(comparators: Vec<Comparator>) -> (r: VersionReq)
        ensures
            r.comparators@ == comparators@,
    {
        VersionReq { comparators }
    }

    /// Whether the version satisfies every comparator: standard
    /// semantic-version comparator evaluation.
    pub fn matches(&self, v: &Version) -> (r: bool)
        ensures
            r == req_matches(self.comparators@, *v),
    {
        let mut i: usize = 0;
        while i < self.comparators.len()
            invariant
                i <= self.comparators@.len(),
                forall|j: int|
                    0 <= j < i ==> comparator_matches(#[trigger] self.comparators@[j], *v),
            decreases self.comparators@.len() - i,
        {
            let c = self.comparators[i];
            let ok = match c.op {
                Op::Lt => v.lt(&c.version),
                Op::Le => v.lt(&c.version) || *v == c.version,
                Op::Gt => c.version.lt(v),
                Op::Ge => c.version.lt(v) || *v == c.version,
                Op::Exact => *v == c.version,
            };
            if !ok {
                proof {
                    assert(!comparator_matches(self.comparators@[i as int], *v));
                }
                return false;
            }
            i = i + 1;
        }
        true
    }
}

/// All digits, no leading zero (a single `0` is allowed), and the value:
/// the canonical decimal reading of a byte sequence, or nothing.
pub open spec fn dec_value(s: Seq<u8>) -> nat
    decreases s.len(),
{
    if s.len() == 0 {
        0
    } else {
        (dec_value(s.drop_last()) * 10 + (s.last() - 48)) as nat
    }
}

/// Whether every byte is an ASCII digit.
pub open spec fn all_digits(s: Seq<u8>) -> bool {
    forall|i: int| 0 <= i < s.len() ==> 48 <= #[trigger] s[i] <= 57
}

/// The canonical decimal number texts: digits only, no superfluous leading
/// zero, and a value that fits in a `u64`.
pub open spec fn spec_parse_u64(s: Seq<u8>) -> Option<u64> {
    if s.len() > 0 && all_digits(s) && (s[0] != 48 || s.len() == 1) && dec_value(s)
        <= u64::MAX {
        Some(dec_value(s) as u64)
    } else {
        None
    }
}

/// Extending a digit string multiplies its value at least tenfold.
proof fn lemma_dec_value_prefix(s: Seq<u8>, i: int)
    requires
        0 <= i <= s.len(),
        all_digits(s),
    ensures
        dec_value(s.take(i)) <= dec_value(s),
    decreases s.len() - i,
{
    if i < s.len() {
        lemma_dec_value_prefix(s, i + 1);
        assert(s.take(i + 1).drop_last() =~= s.take(i));
        assert(s.take(i + 1).last() == s[i]);
        assert(dec_value(s.take(i + 1)) == dec_value(s.take(i)) * 10 + (s[i] - 48));
    } else {
        assert(s.take(i) =~= s);
    }
}

/// Parse a canonical decimal `u64`.
pub fn parse_u64(s: &[u8]) -> (r: Option<u64>)
    ensures
        r == spec_parse_u64(s@),
{
    if s.len() == 0 {
        return None;
    }
    if s.len() > 1 && s[0] == 48 {
        proof {
            assert(spec_parse_u64(s@) is None);
        }
        return None;
    }
    let mut acc: u64 = 0;
    let mut i: usize = 0;
    while i < s.len()
        invariant
            i <= s@.len(),
            all_digits(s@.take(i as int)),
            acc == dec_value(s@.take(i as int)),
        decreases s@.len() - i,
    {
        let b = s[i];
        if b < 48 || b > 57 {
            proof {
                assert(!all_digits(s@));
            }
            return None;
        }
        let d = (b - 48) as u64;
        if acc > (u64::MAX - d) / 10 {
            proof {
                assert(s@.take(i as int + 1).drop_last() =~= s@.take(i as int));
                assert(dec_value(s@.take(i as int + 1)) == acc * 10 + d);
                assert(dec_value(s@.take(i as int + 1)) > u64::MAX);
                if all_digits(s@) {
                    lemma_dec_value_prefix(s@, i as int + 1);
                    assert(dec_value(s@) > u64::MAX);
                }
            }
            return None;
        }
        proof {
            assert(s@.take(i as int + 1).drop_last() =~= s@.take(i as int));
            assert(s@.take(i as int + 1).last() == s@[i as int]);
        }
        acc = acc * 10 + d;
        i = i + 1;
    }
    proof {
        assert(s@.take(s@.len() as int) =~= s@);
        assert(acc == dec_value(s@));
        assert(all_digits(s@));
        assert(spec_parse_u64(s@) == Some(acc));
    }
    Some(acc)
}

/// The first position of `b` in `s` at or after `from`, or the length.
pub open spec fn find_byte(s: Seq<u8>, b: u8, from: int) -> int
    decreases s.len() - from,
{
    if from < 0 || from >= s.len() {
        s.len() as int
    } else if s[from] == b {
        from
    } else {
        find_byte(s, b, from + 1)
    }
}

fn find_byte_exec(s: &[u8], b: u8, from: usize) -> (r: usize)
    requires
        from <= s@.len(),
    ensures
        r == find_byte(s@, b, from as int),
        from <= r <= s@.len(),
    decreases s@.len() - from,
{
    if from >= s.len() {
        return s.len();
    }
    if s[from] == b {
        return from;
    }
    find_byte_exec(s, b, from + 1)
}

/// The version a byte string denotes: three canonical decimal numbers
/// separated by dots, read at the first two dots.
pub open spec fn spec_parse_version(s: Seq<u8>) -> Option<Version> {
    let i = find_byte(s, 46, 0);
    let j = find_byte(s, 46, i + 1);
    if i < s.len() && j < s.len() {
        match (spec_parse_u64(s.subrange(0, i)), spec_parse_u64(s.subrange(i + 1, j)),
        spec_parse_u64(s.subrange(j + 1, s.len() as int))) {
            (Some(major), Some(minor), Some(patch)) => Some(Version { major, minor, patch }),
            _ => None,
        }
    } else {
        None
    }
}

/// Parse a `major.minor.patch` version.
pub fn parse_version(s: &[u8]) -> (r: Option<Version>)
    ensures
        r == spec_parse_version(s@),
{
    let i = find_byte_exec(s, 46, 0);
    if i >= s.len() {
        return None;
    }
    let j = find_byte_exec(s, 46, i + 1);
    if j >= s.len() {
        return None;
    }
    let major = match parse_u64(slice_part(s, 0, i)) {
        Some(n) => n,
        None => {
            return None;
        },
    };
    let minor = match parse_u64(slice_part(s, i + 1, j)) {
        Some(n) => n,
        None => {
            return None;
        },
    };
    let patch = match parse_u64(slice_part(s, j + 1, s.len())) {
        Some(n) => n,
        None => {
            return None;
        },
    };
    Some(Version { major, minor, patch })
}

/// A subslice by byte positions.
fn slice_part(s: &[u8], from: usize, to: usize) -> (r: &[u8])
    requires
        from <= to <= s@.len(),
    ensures
        r@ == s@.subrange(from as int, to as int),
{
    &s[from..to]
}

/// The comparator a byte string denotes: an operator prefix (`>=`, `<=`,
/// `>`, `<` or `=`; none means exact) followed by a version.
pub open spec fn spec_parse_comparator(s: Seq<u8>) -> Option<Comparator> {
    let (op, rest) = if s.len() >= 2 && s[0] == 62 && s[1] == 61 {
        (Op::Ge, s.subrange(2, s.len() as int))
    } else if s.len() >= 2 && s[0] == 60 && s[1] == 61 {
        (Op::Le, s.subrange(2, s.len() as int))
    } else if s.len() >= 1 && s[0] == 62 {
        (Op::Gt, s.subrange(1, s.len() as int))
    } else if s.len() >= 1 && s[0] == 60 {
        (Op::Lt, s.subrange(1, s.len() as int))
    } else if s.len() >= 1 && s[0] == 61 {
        (Op::Exact, s.subrange(1, s.len() as int))
    } else {
        (Op::Exact, s)
    };
    match spec_parse_version(rest) {
        Some(v) => Some(Comparator { op, version: v }),
        None => None,
    }
}

/// Parse one comparator.
pub fn parse_comparator(s: &[u8]) -> (r: Option<Comparator>)
    ensures
        r == spec_parse_comparator(s@),
{
    let (op, start): (Op, usize) = if s.len() >= 2 && s[0] == 62 && s[1] == 61 {
        (Op::Ge, 2)
    } else if s.len() >= 2 && s[0] == 60 && s[1] == 61 {
        (Op::Le, 2)
    } else if s.len() >= 1 && s[0] == 62 {
        (Op::Gt, 1)
    } else if s.len() >= 1 && s[0] == 60 {
        (Op::Lt, 1)
    } else if s.len() >= 1 && s[0] == 61 {
        (Op::Exact, 1)
    } else {
        (Op::Exact, 0)
    };
    let rest = slice_part(s, start, s.len());
    proof {
        if start == 0 {
            assert(s@.subrange(0, s@.len() as int) =~= s@);
        }
    }
    match parse_version(rest) {
        Some(v) => Some(Comparator { op, version: v }),
        None => None,
    }
}

/// The comparators a constraint string denotes, reading comma-separated
/// segments from position `i` on; nothing if any segment is malformed.
pub open spec fn spec_parse_req_from(s: Seq<u8>, i: int) -> Option<Seq<Comparator>>
    decreases s.len() - i,
{
    if i < 0 || i > s.len() {
        None
    } else {
        let j = find_byte(s, 44, i);
        match spec_parse_comparator(s.subrange(i, j)) {
            None => None,
            Some(c) => if j >= s.len() {
                Some(seq![c])
            } else {
                match spec_parse_req_from(
                    s,
                    (if j >= i {
                        j
                    } else {
                        i
                    }) + 1,
                ) {
                    None => None,
                    Some(rest) => Some(seq![c] + rest),
                }
            },
        }
    }
}

/// Parse a comma-separated conjunction of comparators.
pub fn parse_version_req(s: &[u8]) -> (r: Option<VersionReq>)
    ensures
        match spec_parse_req_from(s@, 0) {
            Some(cs) => r matches Some(q) && q.comparators@ == cs,
            None => r is None,
        },
{
    let mut comparators: Vec<Comparator> = Vec::new();
    let mut i: usize = 0;
    loop
        invariant
            i <= s@.len(),
            match spec_parse_req_from(s@, i as int) {
                Some(rest) => spec_parse_req_from(s@, 0) matches Some(all) && all
                    == comparators@ + rest,
                None => spec_parse_req_from(s@, 0) is None,
            },
        decreases s@.len() - i + 1,
    {
        let j = find_byte_exec(s, 44, i);
        let c = match parse_comparator(slice_part(s, i, j)) {
            Some(c) => c,
            None => {
                return None;
            },
        };
        comparators.push(c);
        if j >= s.len() {
            proof {
                match spec_parse_req_from(s@, i as int) {
                    Some(rest) => {
                        assert(rest =~= seq![c]);
                        assert(comparators@ =~= comparators@.drop_last() + rest);
                    },
                    None => {},
                }
            }
            return Some(VersionReq { comparators });
        }
        proof {
            match spec_parse_req_from(s@, j + 1) {
                Some(rest) => {
                    assert(comparators@.drop_last() + (seq![c] + rest) =~= comparators@ + rest);
                },
                None => {},
            }
        }
        i = j + 1;
    }
}

} // verus!

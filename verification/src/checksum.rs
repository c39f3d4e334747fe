//! Content digests: a checksum is the SHA-256 digest of an artifact's bytes,
//! used as the key under which the artifact is stored.

use vstd::prelude::*;

verus! {

/// The SHA-256 digest of a byte sequence; a function of the bytes alone.
pub uninterp spec fn sha256_of(data: Seq<u8>) -> Seq<u8>;

/// Relies on sha2::Sha256::digest: returns the 32-byte SHA-256 digest of the
/// input, a deterministic function of the input bytes alone.
#[verifier::external_body]
fn sha256_digest(data: &[u8]) -> (r: Vec<u8>)
    ensures
        r@ == sha256_of(data@),
        r@.len() == 32,
{
    <sha2::Sha256 as sha2::Digest>::digest(data).to_vec()
}

/// The canonical hexadecimal digit for a nibble.
pub open spec fn hex_digit(n: u8) -> char {
    if n == 0 {
        '0'
    } else if n == 1 {
        '1'
    } else if n == 2 {
        '2'
    } else if n == 3 {
        '3'
    } else if n == 4 {
        '4'
    } else if n == 5 {
        '5'
    } else if n == 6 {
        '6'
    } else if n == 7 {
        '7'
    } else if n == 8 {
        '8'
    } else if n == 9 {
        '9'
    } else if n == 10 {
        'a'
    } else if n == 11 {
        'b'
    } else if n == 12 {
        'c'
    } else if n == 13 {
        'd'
    } else if n == 14 {
        'e'
    } else {
        'f'
    }
}

/// The canonical lower-case hexadecimal encoding of a byte sequence: two
/// digits per byte, high nibble first.
pub open spec fn hex_of(data: Seq<u8>) -> Seq<char> {
    Seq::new(data.len() * 2, |i: int| {
        if i % 2 == 0 {
            hex_digit(data[i / 2] / 16)
        } else {
            hex_digit(data[i / 2] % 16)
        }
    })
}

fn hex_digit_char(n: u8) -> (c: char)
    requires
        n < 16,
    ensures
        c == hex_digit(n),
{
    match n {
        0 => '0',
        1 => '1',
        2 => '2',
        3 => '3',
        4 => '4',
        5 => '5',
        6 => '6',
        7 => '7',
        8 => '8',
        9 => '9',
        10 => 'a',
        11 => 'b',
        12 => 'c',
        13 => 'd',
        14 => 'e',
        _ => 'f',
    }
}

/// Encode bytes as lower-case hexadecimal characters.
pub fn hex_chars(data: &Vec<u8>) -> (r: Vec<char>)
    ensures
        r@ == hex_of(data@),
{
    let mut out: Vec<char> = Vec::new();
    let mut i: usize = 0;
    while i < data.len()
        invariant
            i <= data.len(),
            out@ =~= hex_of(data@).subrange(0, 2 * i as int),
        decreases data.len() - i,
    {
        let b = data[i];
        out.push(hex_digit_char(b / 16));
        out.push(hex_digit_char(b % 16));
        proof {
            assert(out@ =~= hex_of(data@).subrange(0, 2 * (i + 1) as int));
        }
        i = i + 1;
    }
    proof {
        assert(out@ =~= hex_of(data@));
    }
    out
}

/// A content digest identifying a stored artifact. Two equal checksums are
/// treated as identical content.
#[derive(Debug)]
pub struct Checksum {
    bytes: Vec<u8>,
}

impl Checksum {
    /// The digest bytes.
    pub closed spec fn view(&self) -> Seq<u8> {
        self.bytes@
    }

    /// A checksum always holds exactly 32 digest bytes.
    pub closed spec fn wf(&self) -> bool {
        self.bytes@.len() == 32
    }

    /// Compute the checksum of the given artifact bytes. The result is the
    /// SHA-256 digest: calling this twice on equal byte sequences gives equal
    /// checksums.
    pub fn checksum(data: &Vec<u8>) -> (c: Checksum)
        ensures
            c@ == sha256_of(data@),
            c.wf(),
    {
        let bytes = sha256_digest(data.as_slice());
        Checksum { bytes }
    }

    /// Rebuild a checksum from its raw digest bytes.
    pub fn from_bytes(bytes: Vec<u8>) -> (c: Checksum)
        requires
            bytes@.len() == 32,
        ensures
            c@ == bytes@,
            c.wf(),
    {
        Checksum { bytes }
    }

    /// The raw digest bytes.
    pub fn as_bytes(&self) -> (r: &Vec<u8>)
        ensures
            r@ == self@,
    {
        &self.bytes
    }

    /// The canonical text encoding: lower-case hexadecimal, used as the file
    /// name under which the artifact is stored.
    pub fn to_hex(&self) -> (r: Vec<char>)
        ensures
            r@ == hex_of(self@),
    {
        hex_chars(&self.bytes)
    }

    /// An owned copy of this checksum.
    pub fn duplicate(&self) -> (c: Checksum)
        ensures
            c@ == self@,
            c.wf() == self.wf(),
    {
        let mut bytes: Vec<u8> = Vec::new();
        let mut i: usize = 0;
        while i < self.bytes.len()
            invariant
                i <= self.bytes@.len(),
                bytes@ =~= self.bytes@.subrange(0, i as int),
            decreases self.bytes@.len() - i,
        {
            bytes.push(self.bytes[i]);
            i = i + 1;
        }
        proof {
            assert(bytes@ =~= self.bytes@);
        }
        Checksum { bytes }
    }

    /// Bit-for-bit equality of two checksums.
    pub fn matches(&self, other: &Checksum) -> (r: bool)
        ensures
            r == (self@ == other@),
    {
        if self.bytes.len() != other.bytes.len() {
            proof {
                assert(self@ != other@);
            }
            return false;
        }
        let mut i: usize = 0;
        while i < self.bytes.len()
            invariant
                i <= self.bytes@.len(),
                self.bytes@.len() == other.bytes@.len(),
                forall|j: int| 0 <= j < i ==> self.bytes@[j] == other.bytes@[j],
            decreases self.bytes@.len() - i,
        {
            if self.bytes[i] != other.bytes[i] {
                proof {
                    assert(self@ != other@);
                }
                return false;
            }
            i = i + 1;
        }
        proof {
            assert(self@ =~= other@);
        }
        true
    }
}

/// Checksums are deterministic: the digests of equal byte sequences are equal.
pub proof fn lemma_checksum_deterministic(a: Seq<u8>, b: Seq<u8>)
    requires
        a == b,
    ensures
        sha256_of(a) == sha256_of(b),
{
}

} // verus!

//! The database manifest and the SHA-256 checks that decide whether the
//! local database is current and whether a download is intact.
use vstd::prelude::*;

use sha2::Digest;

use crate::text::{push_str, string_of};

verus! {

/// The published description of the current database: its version, the
/// lowercase hex SHA-256 of the file, and where to download it.
#[derive(Debug)]
pub struct Manifest {
    pub version: String,
    pub sha256: String,
    pub url: String,
}

/// The SHA-256 digest of `data`, as the `sha2` crate computes it.
pub uninterp spec fn sha256_of(data: Seq<u8>) -> Seq<u8>;

/// Calls `sha2::Sha256::digest` on `data`. Trusted: the result is the named
/// digest `sha256_of(data)`, and it has 32 bytes (the output size of
/// SHA-256).
#[verifier::external_body]
fn sha256_digest(data: &[u8]) -> (r: Vec<u8>)
    ensures
        r@ == sha256_of(data@),
        r@.len() == 32,
{
    sha2::Sha256::digest(data).to_vec()
}

/// The lowercase hexadecimal digit for `n` in 0..16.
pub open spec fn hex_digit(n: int) -> char {
    if n < 10 {
        if n == 0 {
            '0'
        } else if n == 1 {
            '1'
        } else if n == 2 {
            '2'
        } else if n == 3 {
            '3'
        } else if n == 4 {
            '4'
        } else if n == 5 {
            '5'
        } else if n == 6 {
            '6'
        } else if n == 7 {
            '7'
        } else if n == 8 {
            '8'
        } else {
            '9'
        }
    } else if n == 10 {
        'a'
    } else if n == 11 {
        'b'
    } else if n == 12 {
        'c'
    } else if n == 13 {
        'd'
    } else if n == 14 {
        'e'
    } else {
        'f'
    }
}

/// `bytes` in lowercase hexadecimal, two digits per byte, high digit first
/// (what `{:x}` writes for a digest).
pub open spec fn lower_hex(bytes: Seq<u8>) -> Seq<char>
    decreases bytes.len(),
{
    if bytes.len() == 0 {
        Seq::empty()
    } else {
        let b = bytes.last() as int;
        lower_hex(bytes.drop_last()) + seq![hex_digit(b / 16), hex_digit(b % 16)]
    }
}

fn nibble(n: u8) -> (c: char)
    requires
        n < 16,
    ensures
        c == hex_digit(n as int),
{
    if n == 0 {
        '0'
    } else if n == 1 {
        '1'
    } else if n == 2 {
        '2'
    } else if n == 3 {
        '3'
    } else if n == 4 {
        '4'
    } else if n == 5 {
        '5'
    } else if n == 6 {
        '6'
    } else if n == 7 {
        '7'
    } else if n == 8 {
        '8'
    } else if n == 9 {
        '9'
    } else if n == 10 {
        'a'
    } else if n == 11 {
        'b'
    } else if n == 12 {
        'c'
    } else if n == 13 {
        'd'
    } else if n == 14 {
        'e'
    } else {
        'f'
    }
}

/// `bytes` in lowercase hexadecimal.
pub fn hex_string(bytes: &[u8]) -> (r: String)
    ensures
        r@ == lower_hex(bytes@),
{
    let mut out: Vec<char> = Vec::new();
    let mut i: usize = 0;
    while i < bytes.len()
        invariant
            i <= bytes.len(),
            out@ == lower_hex(bytes@.take(i as int)),
        decreases bytes.len() - i,
    {
        let b = bytes[i];
        out.push(nibble(b / 16));
        out.push(nibble(b % 16));
        proof {
            assert(bytes@.take(i + 1).drop_last() == bytes@.take(i as int));
        }
        i = i + 1;
    }
    proof {
        assert(bytes@.take(bytes.len() as int) == bytes@);
    }
    string_of(out)
}

/// The SHA-256 digest of `data` in lowercase hexadecimal.
pub fn sha256_hex(data: &[u8]) -> (r: String)
    ensures
        r@ == lower_hex(sha256_of(data@)),
{
    let digest = sha256_digest(data);
    hex_string(digest.as_slice())
}

/// A downloaded database whose SHA-256 is not the one the manifest names.
#[derive(Debug)]
pub struct ChecksumMismatch {
    pub expected: String,
    pub actual: String,
}

impl ChecksumMismatch {
    /// The message shown for the mismatch.
    pub fn message(&self) -> (r: String)
        ensures
            r@ == "SHA-256 mismatch: expected "@ + self.expected@ + ", got "@ + self.actual@,
    {
        let mut out: Vec<char> = Vec::new();
        push_str(&mut out, "SHA-256 mismatch: expected ");
        push_str(&mut out, self.expected.as_str());
        push_str(&mut out, ", got ");
        push_str(&mut out, self.actual.as_str());
        string_of(out)
    }
}

/// Checks a SHA-256 digest against the manifest: it is accepted exactly
/// when its lowercase hex is the manifest's `sha256`; otherwise the error
/// holds both hex texts.
pub fn check_digest(digest: &[u8], manifest: &Manifest) -> (r: Result<(), ChecksumMismatch>)
    ensures
        r is Ok <==> lower_hex(digest@) == manifest.sha256@,
        r matches Err(e) ==> e.expected@ == manifest.sha256@ && e.actual@ == lower_hex(digest@),
{
    let actual = hex_string(digest);
    if actual == manifest.sha256 {
        Ok(())
    } else {
        Err(ChecksumMismatch { expected: manifest.sha256.clone(), actual })
    }
}

/// Checks a downloaded database against the manifest: it is accepted
/// exactly when its SHA-256 in lowercase hex is the manifest's `sha256`.
pub fn verify_download(bytes: &[u8], manifest: &Manifest) -> (r: Result<(), ChecksumMismatch>)
    ensures
        r is Ok <==> lower_hex(sha256_of(bytes@)) == manifest.sha256@,
        r matches Err(e) ==> e.expected@ == manifest.sha256@ && e.actual@ == lower_hex(
            sha256_of(bytes@),
        ),
{
    let digest = sha256_digest(bytes);
    check_digest(digest.as_slice(), manifest)
}

/// Whether the database must be downloaded: when there is no readable file
/// (`contents` is `None`), or when its SHA-256 is not the manifest's.
pub fn db_needs_update(contents: Option<&[u8]>, manifest: &Manifest) -> (r: bool)
    ensures
        r == match contents {
            None => true,
            Some(bytes) => lower_hex(sha256_of(bytes@)) != manifest.sha256@,
        },
{
    match contents {
        None => true,
        Some(bytes) => verify_download(bytes, manifest).is_err(),
    }
}


proof fn lemma_lower_hex_len(bytes: Seq<u8>)
    ensures
        lower_hex(bytes).len() == 2 * bytes.len(),
    decreases bytes.len(),
{
    if bytes.len() > 0 {
        lemma_lower_hex_len(bytes.drop_last());
    }
}

proof fn lemma_hex_digit_injective(a: int, b: int)
    requires
        0 <= a < 16,
        0 <= b < 16,
        hex_digit(a) == hex_digit(b),
    ensures
        a == b,
{
}

/// Different byte strings have different hex texts, so the checksum checks
/// accept exactly the data whose digest is the one the manifest names.
pub proof fn lemma_lower_hex_injective(a: Seq<u8>, b: Seq<u8>)
    requires
        lower_hex(a) == lower_hex(b),
    ensures
        a == b,
    decreases a.len(),
{
    lemma_lower_hex_len(a);
    lemma_lower_hex_len(b);
    if a.len() > 0 {
        let ha = lower_hex(a.drop_last());
        let hb = lower_hex(b.drop_last());
        lemma_lower_hex_len(a.drop_last());
        lemma_lower_hex_len(b.drop_last());
        let x = a.last() as int;
        let y = b.last() as int;
        let whole = lower_hex(a);
        assert(whole == ha + seq![hex_digit(x / 16), hex_digit(x % 16)]);
        assert(whole == hb + seq![hex_digit(y / 16), hex_digit(y % 16)]);
        assert(whole[whole.len() - 2] == hex_digit(x / 16));
        assert(whole[whole.len() - 2] == hex_digit(y / 16));
        assert(whole[whole.len() - 1] == hex_digit(x % 16));
        assert(whole[whole.len() - 1] == hex_digit(y % 16));
        lemma_hex_digit_injective(x / 16, y / 16);
        lemma_hex_digit_injective(x % 16, y % 16);
        assert(ha == whole.take(whole.len() - 2));
        assert(hb == whole.take(whole.len() - 2));
        lemma_lower_hex_injective(a.drop_last(), b.drop_last());
        assert(x == y);
        assert(a == a.drop_last().push(a.last()));
        assert(b == b.drop_last().push(b.last()));
    }
}
} // verus!

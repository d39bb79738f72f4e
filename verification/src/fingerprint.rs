//! Fingerprints: stable cache keys for metadata entries and blobs.
//!
//! Metadata keys are structured strings of the form `"<kind>:<owner>:<repo>"`.
//! Blob keys are `"file:"` followed by the lowercase hex of the SHA-256 of the
//! full upstream URL, which yields filesystem-safe, fixed-length identifiers
//! whatever characters the URL holds.

use vstd::prelude::*;
use vstd::string::StringSliceAdditionalSpecFns;
use sha2::{Digest, Sha256};

verus! {

/// The SHA-256 digest of a byte sequence, named but not written out: the
/// digest is a function of the input bytes alone, so the name is stable
/// across processes and machines.
pub uninterp spec fn sha256_of(bytes: Seq<u8>) -> Seq<u8>;

/// Relies on sha2's `Sha256`: the digest depends on the input bytes alone
/// and is 32 bytes long.
#[verifier::external_body]
fn sha256_digest(data: &[u8]) -> (r: Vec<u8>)
    ensures
        r@ == sha256_of(data@),
        r@.len() == 32,
{
    let mut hasher = Sha256::new();
    hasher.update(data);
    hasher.finalize().to_vec()
}

/// The lowercase hex digit for a nibble.
pub open spec fn hex_digit(n: u8) -> char
    recommends
        n < 16,
{
    if n < 10 {
        ((('0' as u8) + n) as u8) as char
    } else {
        ((('a' as u8) + (n - 10)) as u8) as char
    }
}

/// Lowercase hex encoding: two digits per byte, high nibble first.
pub open spec fn hex_of(bytes: Seq<u8>) -> Seq<char>
    decreases bytes.len(),
{
    if bytes.len() == 0 {
        Seq::empty()
    } else {
        seq![hex_digit(bytes.first() / 16), hex_digit(bytes.first() % 16)]
            + hex_of(bytes.drop_first())
    }
}

/// Relies on hex's `encode`: lowercase hex, two digits per byte, high
/// nibble first.
#[verifier::external_body]
fn hex_encode(data: &[u8]) -> (r: String)
    ensures
        r@ == hex_of(data@),
{
    hex::encode(data)
}

/// The metadata key for a repository-info entry.
pub open spec fn repo_info_key_spec(owner: Seq<char>, repo: Seq<char>) -> Seq<char> {
    "repo_info:"@ + owner + ":"@ + repo
}

/// The metadata key for a release-list entry.
pub open spec fn releases_key_spec(owner: Seq<char>, repo: Seq<char>) -> Seq<char> {
    "releases:"@ + owner + ":"@ + repo
}

/// The metadata key for a latest-release entry.
pub open spec fn latest_release_key_spec(owner: Seq<char>, repo: Seq<char>) -> Seq<char> {
    "latest_release:"@ + owner + ":"@ + repo
}

/// The blob key for a URL: `"file:"` plus the lowercase hex SHA-256 of the
/// URL's UTF-8 bytes.
pub open spec fn file_cache_key_spec(url: Seq<char>) -> Seq<char> {
    "file:"@ + hex_of(sha256_of(vstd::utf8::encode_utf8(url)))
}

pub fn repo_info_key(owner: &str, repo: &str) -> (r: String)
    ensures
        r@ == repo_info_key_spec(owner@, repo@),
{
    let mut s = String::from_str("repo_info:");
    s.append(owner);
    s.append(":");
    s.append(repo);
    proof {
        assert(s@ =~= repo_info_key_spec(owner@, repo@));
    }
    s
}

pub fn releases_key(owner: &str, repo: &str) -> (r: String)
    ensures
        r@ == releases_key_spec(owner@, repo@),
{
    let mut s = String::from_str("releases:");
    s.append(owner);
    s.append(":");
    s.append(repo);
    proof {
        assert(s@ =~= releases_key_spec(owner@, repo@));
    }
    s
}

pub fn latest_release_key(owner: &str, repo: &str) -> (r: String)
    ensures
        r@ == latest_release_key_spec(owner@, repo@),
{
    let mut s = String::from_str("latest_release:");
    s.append(owner);
    s.append(":");
    s.append(repo);
    proof {
        assert(s@ =~= latest_release_key_spec(owner@, repo@));
    }
    s
}

pub fn file_cache_key(url: &str) -> (r: String)
    ensures
        r@ == file_cache_key_spec(url@),
{
    let digest = sha256_digest(url.as_bytes());
    let hexed = hex_encode(digest.as_slice());
    let mut s = String::from_str("file:");
    s.append(hexed.as_str());
    proof {
        assert(s@ =~= file_cache_key_spec(url@));
    }
    s
}

/// The lowercase hex SHA-256 of a URL alone, used to name the blob file on
/// disk.
pub open spec fn url_hash_spec(url: Seq<char>) -> Seq<char> {
    hex_of(sha256_of(vstd::utf8::encode_utf8(url)))
}

pub fn url_hash(url: &str) -> (r: String)
    ensures
        r@ == url_hash_spec(url@),
{
    let digest = sha256_digest(url.as_bytes());
    hex_encode(digest.as_slice())
}

/// Fingerprint stability: the blob key is a function of the URL's characters
/// alone, so byte-for-byte equal URLs give equal keys, in every run.
pub proof fn lemma_file_cache_key_deterministic(u1: Seq<char>, u2: Seq<char>)
    requires
        u1 == u2,
    ensures
        file_cache_key_spec(u1) == file_cache_key_spec(u2),
{
}

} // verus!

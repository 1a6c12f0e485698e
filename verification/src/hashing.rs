use crypto::digest::Digest;
use crypto::ripemd160::Ripemd160;
use crypto::sha2::Sha256;
use vstd::prelude::*;
use vstd::slice::slice_to_vec;

verus! {

/// How many characters a SHA-256 digest has in hexadecimal.
pub const DIGEST_HEX_LEN: usize = 64;

/// The SHA-256 digest of `data`, written as lower-case hexadecimal text.
pub uninterp spec fn sha256_hex_of(data: Seq<u8>) -> Seq<char>;

/// The SHA-256 digest of `data`.
pub uninterp spec fn sha256_of(data: Seq<u8>) -> Seq<u8>;

/// The RIPEMD-160 digest of `data`.
pub uninterp spec fn ripemd160_of(data: Seq<u8>) -> Seq<u8>;

/// Feeds `data` to `crypto::sha2::Sha256` and takes `Digest::result_str`.
/// Trusted: the text depends on `data` alone and has 64 characters (two
/// for each of the 32 bytes of the digest).
#[verifier::external_body]
pub(crate) fn sha256_hex(data: &[u8]) -> (digest: String)
    ensures
        digest@ == sha256_hex_of(data@),
        digest@.len() == DIGEST_HEX_LEN,
{
    let mut hasher = Sha256::new();
    hasher.input(data);
    hasher.result_str()
}

/// Feeds `data` to `crypto::sha2::Sha256` and takes `Digest::result`.
/// Trusted: the 32 bytes depend on `data` alone.
#[verifier::external_body]
pub(crate) fn sha256(data: &[u8]) -> (digest: Vec<u8>)
    ensures
        digest@ == sha256_of(data@),
        digest@.len() == 32,
{
    let mut hasher = Sha256::new();
    hasher.input(data);
    let mut out = [0u8; 32];
    hasher.result(&mut out);
    out.to_vec()
}

/// Feeds `data` to `crypto::ripemd160::Ripemd160` and takes
/// `Digest::result`. Trusted: the 20 bytes depend on `data` alone.
#[verifier::external_body]
pub(crate) fn ripemd160(data: &[u8]) -> (digest: Vec<u8>)
    ensures
        digest@ == ripemd160_of(data@),
        digest@.len() == 20,
{
    let mut hasher = Ripemd160::new();
    hasher.input(data);
    let mut out = [0u8; 20];
    hasher.result(&mut out);
    out.to_vec()
}

/// The hash by which an output names its owner: RIPEMD-160 of SHA-256 of
/// the owner's public key.
pub open spec fn pub_key_hash_of(pub_key: Seq<u8>) -> Seq<u8> {
    ripemd160_of(sha256_of(pub_key))
}

/// Replaces a public key by its hash.
pub fn hash_pub_key(pub_key: &mut Vec<u8>)
    ensures
        final(pub_key)@ == pub_key_hash_of(old(pub_key)@),
        final(pub_key)@.len() == 20,
{
    let inner = sha256(pub_key.as_slice());
    *pub_key = ripemd160(inner.as_slice());
}

/// A digest meets the target when its first `difficulty` characters exist
/// and are all `'0'`.
pub open spec fn meets_target(digest: Seq<char>, difficulty: nat) -> bool {
    &&& digest.len() >= difficulty
    &&& forall|i: int| 0 <= i < difficulty ==> digest[i] == '0'
}

/// Tests a digest against the target.
pub fn has_leading_zeros(digest: &str, difficulty: usize) -> (ok: bool)
    ensures
        ok == meets_target(digest@, difficulty as nat),
{
    let n = digest.unicode_len();
    if n < difficulty {
        return false;
    }
    let mut i: usize = 0;
    while i < difficulty
        invariant
            i <= difficulty <= n,
            n == digest@.len(),
            forall|j: int| 0 <= j < i ==> digest@[j] == '0',
        decreases difficulty - i,
    {
        if digest.get_char(i) != '0' {
            return false;
        }
        i += 1;
    }
    true
}

/// Whether two byte strings are the same.
pub fn bytes_equal(a: &[u8], b: &[u8]) -> (same: bool)
    ensures
        same == (a@ == b@),
{
    if a.len() != b.len() {
        return false;
    }
    let mut i: usize = 0;
    while i < a.len()
        invariant
            i <= a.len(),
            a.len() == b.len(),
            forall|j: int| 0 <= j < i ==> a@[j] == b@[j],
        decreases a.len() - i,
    {
        if a[i] != b[i] {
            return false;
        }
        i += 1;
    }
    assert(a@ =~= b@);
    true
}

/// A copy of a byte string.
pub fn copy_bytes(bytes: &[u8]) -> (copy: Vec<u8>)
    ensures
        copy@ == bytes@,
{
    slice_to_vec(bytes)
}

} // verus!

use vstd::prelude::*;

verus! {

/// The Ed25519 signature of `message` under the 64-byte secret key
/// `secret_key` (seed, then public key).
pub uninterp spec fn ed25519_signature_of(message: Seq<u8>, secret_key: Seq<u8>) -> Seq<u8>;

/// Whether `signature` is an Ed25519 signature of `message` that
/// `public_key` accepts.
pub uninterp spec fn ed25519_accepts(
    message: Seq<u8>,
    public_key: Seq<u8>,
    signature: Seq<u8>,
) -> bool;

/// The length of an Ed25519 secret key as `crypto::ed25519` keeps it.
pub const SECRET_KEY_LEN: usize = 64;

/// The length of an Ed25519 public key.
pub const PUBLIC_KEY_LEN: usize = 32;

/// The length of an Ed25519 signature.
pub const SIGNATURE_LEN: usize = 64;

/// Calls `crypto::ed25519::signature`. Trusted: the 64 bytes depend on the
/// message and the key alone. The key must have its 64 bytes: the outside
/// function slices it without a test.
#[verifier::external_body]
pub(crate) fn ed25519_sign(message: &[u8], secret_key: &[u8]) -> (signature: Vec<u8>)
    requires
        secret_key@.len() == SECRET_KEY_LEN,
    ensures
        signature@ == ed25519_signature_of(message@, secret_key@),
        signature@.len() == SIGNATURE_LEN,
{
    crypto::ed25519::signature(message, secret_key).to_vec()
}

/// Calls `crypto::ed25519::verify`. Trusted: the answer depends on the
/// three arguments alone. Key and signature must have their full lengths:
/// the outside function slices both without a test.
#[verifier::external_body]
pub(crate) fn ed25519_verify(message: &[u8], public_key: &[u8], signature: &[u8]) -> (ok: bool)
    requires
        public_key@.len() == PUBLIC_KEY_LEN,
        signature@.len() == SIGNATURE_LEN,
    ensures
        ok == ed25519_accepts(message@, public_key@, signature@),
{
    crypto::ed25519::verify(message, public_key, signature)
}

/// What a signature check says of an input: keys and signatures of another
/// length than Ed25519's are refused without asking.
pub open spec fn signature_holds(
    message: Seq<u8>,
    public_key: Seq<u8>,
    signature: Seq<u8>,
) -> bool {
    &&& public_key.len() == PUBLIC_KEY_LEN
    &&& signature.len() == SIGNATURE_LEN
    &&& ed25519_accepts(message, public_key, signature)
}

/// Checks `signature` on `message` against `public_key`.
pub fn check_signature(message: &[u8], public_key: &[u8], signature: &[u8]) -> (ok: bool)
    ensures
        ok == signature_holds(message@, public_key@, signature@),
{
    if public_key.len() != PUBLIC_KEY_LEN || signature.len() != SIGNATURE_LEN {
        return false;
    }
    ed25519_verify(message, public_key, signature)
}

} // verus!

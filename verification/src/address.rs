use crate::errors::ChainError;
use bitcoincash_addr::Address;
use vstd::prelude::*;

verus! {

/// The bytes that an address text stands for, where it is an address.
pub uninterp spec fn address_body_of(address: Seq<char>) -> Option<Seq<u8>>;

/// The texts that are handed to the decoder. A text with exactly one colon
/// is read as prefix and payload, and a payload of fewer than ten
/// characters is refused here: the decoder drops eight checksum symbols
/// and reads a version byte from the rest without testing that it is there.
pub open spec fn decodable_shape(s: Seq<char>) -> bool {
    forall|i: int|
        0 <= i < s.len() && s[i] == ':' && (forall|j: int|
            0 <= j < s.len() && s[j] == ':' ==> j == i) ==> s.len() - i > 10
}

/// Calls `bitcoincash_addr::Address::decode` and takes the `body` of the
/// address. Trusted: whether the text decodes, and to which bytes, depends
/// on the text alone.
#[verifier::external_body]
pub(crate) fn decode_address(address: &str) -> (body: Option<Vec<u8>>)
    requires
        decodable_shape(address@),
    ensures
        match body {
            Some(b) => address_body_of(address@) == Some(b@),
            None => address_body_of(address@) is None,
        },
{
    Address::decode(address).ok().map(|a| a.body)
}

/// Whether a text may be handed to the decoder.
pub fn has_decodable_shape(address: &str) -> (ok: bool)
    ensures
        ok == decodable_shape(address@),
{
    let n = address.unicode_len();
    let mut colons: usize = 0;
    let mut first: usize = 0;
    let mut i: usize = 0;
    let ghost mut second: int = 0;
    while i < n
        invariant
            i <= n,
            n == address@.len(),
            colons <= 2,
            colons == 0 ==> forall|j: int| 0 <= j < i ==> address@[j] != ':',
            colons == 1 ==> first < i && address@[first as int] == ':' && forall|j: int|
                0 <= j < i && address@[j] == ':' ==> j == first,
            colons == 2 ==> first < second < i && address@[first as int] == ':' && address@[second]
                == ':',
        decreases n - i,
    {
        if address.get_char(i) == ':' {
            if colons == 0 {
                first = i;
                colons = 1;
            } else {
                proof {
                    if colons == 1 {
                        second = i as int;
                    }
                }
                colons = 2;
            }
        }
        i += 1;
    }
    if colons == 1 {
        let ok = n - first > 10;
        proof {
            if ok {
                assert forall|k: int|
                    0 <= k < address@.len() && address@[k] == ':' && (forall|j: int|
                        0 <= j < address@.len() && address@[j] == ':' ==> j == k) implies address@.len()
                    - k > 10 by {
                    assert(k == first);
                }
            }
        }
        ok
    } else {
        proof {
            if colons == 2 {
                let s = address@;
                assert forall|k: int|
                    0 <= k < s.len() && s[k] == ':' && (forall|j: int|
                        0 <= j < s.len() && s[j] == ':' ==> j == k) implies s.len() - k > 10 by {
                    assert(first as int == k);
                    assert(second == k);
                }
            }
        }
        true
    }
}

/// What `pub_key_hash_of_address` answers for a text.
pub open spec fn address_outcome(address: Seq<char>) -> Result<Seq<u8>, ChainError> {
    if !decodable_shape(address) {
        Err(ChainError::InvalidAddress)
    } else {
        match address_body_of(address) {
            Some(body) => Ok(body),
            None => Err(ChainError::InvalidAddress),
        }
    }
}

/// The public-key hash that an address names.
pub fn pub_key_hash_of_address(address: &str) -> (hash: Result<Vec<u8>, ChainError>)
    ensures
        match hash {
            Ok(h) => address_outcome(address@) == Ok::<Seq<u8>, ChainError>(h@),
            Err(e) => address_outcome(address@) == Err::<Seq<u8>, ChainError>(e),
        },
{
    if !has_decodable_shape(address) {
        return Err(ChainError::InvalidAddress);
    }
    match decode_address(address) {
        Some(body) => Ok(body),
        None => Err(ChainError::InvalidAddress),
    }
}

} // verus!

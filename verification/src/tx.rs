use crate::address::{address_outcome, pub_key_hash_of_address};
use crate::errors::ChainError;
use crate::hashing::{bytes_equal, copy_bytes, hash_pub_key, pub_key_hash_of};
use vstd::prelude::*;

verus! {

/// A reference to an output of an earlier transaction, with the proof that
/// the spender may use it.
#[derive(Debug)]
pub struct TXInput {
    pub txid: String,
    pub vout: i32,
    pub signature: Vec<u8>,
    pub pub_key: Vec<u8>,
}

/// An amount locked to the hash of its owner's public key.
#[derive(Debug)]
pub struct TXOutput {
    pub value: i32,
    pub pub_key_hash: Vec<u8>,
}

/// What a `TXInput` holds.
pub struct TXInputView {
    pub txid: Seq<char>,
    pub vout: i32,
    pub signature: Seq<u8>,
    pub pub_key: Seq<u8>,
}

/// What a `TXOutput` holds.
pub struct TXOutputView {
    pub value: i32,
    pub pub_key_hash: Seq<u8>,
}

impl View for TXInput {
    type V = TXInputView;

    open spec fn view(&self) -> TXInputView {
        TXInputView {
            txid: self.txid@,
            vout: self.vout,
            signature: self.signature@,
            pub_key: self.pub_key@,
        }
    }
}

impl View for TXOutput {
    type V = TXOutputView;

    open spec fn view(&self) -> TXOutputView {
        TXOutputView { value: self.value, pub_key_hash: self.pub_key_hash@ }
    }
}

impl Clone for TXInput {
    fn clone(&self) -> (copy: Self)
        ensures
            copy@ == self@,
    {
        TXInput {
            txid: self.txid.clone(),
            vout: self.vout,
            signature: copy_bytes(self.signature.as_slice()),
            pub_key: copy_bytes(self.pub_key.as_slice()),
        }
    }
}

impl Clone for TXOutput {
    fn clone(&self) -> (copy: Self)
        ensures
            copy@ == self@,
    {
        TXOutput { value: self.value, pub_key_hash: copy_bytes(self.pub_key_hash.as_slice()) }
    }
}

impl TXInputView {
    /// Whether the public key that the input carries belongs to the owner
    /// named by `pub_key_hash`.
    pub open spec fn unlocks(self, pub_key_hash: Seq<u8>) -> bool {
        pub_key_hash_of(self.pub_key) == pub_key_hash
    }
}

impl TXOutputView {
    /// Whether the output belongs to the owner named by `pub_key_hash`.
    pub open spec fn locked_to(self, pub_key_hash: Seq<u8>) -> bool {
        self.pub_key_hash == pub_key_hash
    }
}

impl TXInput {
    /// Whether the spender's public key hashes to `unlocking_data`.
    pub fn can_unlock_output_with(&self, unlocking_data: &[u8]) -> (ok: bool)
        ensures
            ok == self@.unlocks(unlocking_data@),
    {
        let mut pub_key_hash = copy_bytes(self.pub_key.as_slice());
        hash_pub_key(&mut pub_key_hash);
        bytes_equal(pub_key_hash.as_slice(), unlocking_data)
    }
}

/// What `TXOutput::new` answers for an amount and an address.
pub open spec fn new_output_outcome(value: i32, address: Seq<char>) -> Result<
    TXOutputView,
    ChainError,
> {
    if value < 0 {
        Err(ChainError::InvalidAmount)
    } else {
        match address_outcome(address) {
            Ok(hash) => Ok(TXOutputView { value, pub_key_hash: hash }),
            Err(e) => Err(e),
        }
    }
}

impl TXOutput {
    /// Whether the output is locked to the owner named by `unlocking_data`.
    pub fn can_be_unlock_with(&self, unlocking_data: &[u8]) -> (ok: bool)
        ensures
            ok == self@.locked_to(unlocking_data@),
    {
        bytes_equal(self.pub_key_hash.as_slice(), unlocking_data)
    }

    /// Locks the output to the owner that `address` names. An output is
    /// left as it was where the text is no address.
    pub fn lock(&mut self, address: &str) -> (done: Result<(), ChainError>)
        ensures
            match address_outcome(address@) {
                Ok(hash) => done is Ok && final(self)@ == (TXOutputView {
                    value: old(self).value,
                    pub_key_hash: hash,
                }),
                Err(e) => done == Err::<(), ChainError>(e) && *final(self) == *old(self),
            },
    {
        match pub_key_hash_of_address(address) {
            Ok(hash) => {
                self.pub_key_hash = hash;
                Ok(())
            },
            Err(e) => Err(e),
        }
    }

    /// An output of `value` for the owner that `address` names.
    pub fn new(value: i32, address: String) -> (made: Result<Self, ChainError>)
        ensures
            match made {
                Ok(out) => new_output_outcome(value, address@) == Ok::<TXOutputView, ChainError>(
                    out@,
                ),
                Err(e) => new_output_outcome(value, address@) == Err::<TXOutputView, ChainError>(e),
            },
    {
        if value < 0 {
            return Err(ChainError::InvalidAmount);
        }
        let mut txo = TXOutput { value, pub_key_hash: Vec::new() };
        match txo.lock(address.as_str()) {
            Ok(()) => Ok(txo),
            Err(e) => Err(e),
        }
    }

    /// An output of `value` for the owner with the given public-key hash.
    pub fn locked(value: i32, pub_key_hash: Vec<u8>) -> (out: Self)
        ensures
            out@ == (TXOutputView { value, pub_key_hash: pub_key_hash@ }),
    {
        TXOutput { value, pub_key_hash }
    }
}

} // verus!

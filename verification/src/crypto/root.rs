//! Root keys: wrapping and unwrapping the data keys of segments.
use crate::outside::aead::{
    aead_decrypt, aead_encrypt, aes_gcm_open, aes_gcm_seal, random_nonce,
};
use crate::outside::wiping::{wipe, zeroes};
use crate::text::concat2;
use vstd::prelude::*;
use vstd::string::*;

verus! {

/// Why a data key could not be wrapped or unwrapped.
#[derive(Debug)]
pub enum RootKeyError {
    InvalidLength,
    Kms(String),
}

impl RootKeyError {
    /// The error as text.
    pub open spec fn text(self) -> Seq<char> {
        match self {
            RootKeyError::InvalidLength => "invalid root key length: expected 32 bytes"@,
            RootKeyError::Kms(s) => "kms: "@ + s@,
        }
    }

    pub fn to_string(&self) -> (r: String)
        ensures
            r@ == self.text(),
    {
        match self {
            RootKeyError::InvalidLength => String::from_str(
                "invalid root key length: expected 32 bytes",
            ),
            RootKeyError::Kms(s) => concat2("kms: ", s.as_str()),
        }
    }
}

/// 32-byte symmetric key. It is wiped when it is dropped, so that it does not stay in
/// memory once it is no longer needed.
#[derive(Clone)]
pub struct DataKey(pub [u8; 32]);

impl DataKey {
    /// Wipes the key from memory.
    pub fn zeroize(&mut self)
        ensures
            final(self).0@ == zeroes(),
    {
        wipe(&mut self.0);
    }
}

impl Drop for DataKey {
    fn drop(&mut self)
        ensures
            final(self).0@ == zeroes(),
        opens_invariants none
        no_unwind
    {
        wipe(&mut self.0);
    }
}

/// A key that wraps data keys. Key services implement it, so success is promised only by
/// those that say so; the two relations say what a root key may answer.
pub trait RootKey {
    /// Wrapping never fails, and gives a nonce and bytes of the lengths that an envelope
    /// has room for.
    spec fn wraps_always(&self) -> bool;

    /// Wrapping the data key may give this nonce and these wrapped bytes.
    spec fn may_wrap(&self, data_key: Seq<u8>, nonce: Seq<u8>, wrapped: Seq<u8>) -> bool;

    /// Unwrapping may give this data key, or fail with this text.
    spec fn may_unwrap(
        &self,
        nonce: Seq<u8>,
        wrapped: Seq<u8>,
        outcome: Result<Seq<u8>, Seq<char>>,
    ) -> bool;

    /// Encrypts a fresh data key. Returns the nonce and the wrapped bytes.
    fn wrap(&self, data_key: &DataKey) -> (r: Result<(Vec<u8>, Vec<u8>), RootKeyError>)
        ensures
            r matches Ok(p) ==> self.may_wrap(data_key.0@, p.0@, p.1@),
            self.wraps_always() ==> (r matches Ok(p) && p.0@.len() == 12 && p.1@.len() == 48),
    ;

    /// Decrypts a wrapped data key.
    fn unwrap(&self, nonce: &[u8], wrapped: &[u8]) -> (r: Result<DataKey, RootKeyError>)
        ensures
            r matches Ok(k) ==> self.may_unwrap(nonce@, wrapped@, Ok(k.0@)),
            r matches Err(e) ==> self.may_unwrap(nonce@, wrapped@, Err(e.text())),
    ;
}

/// Root key with the key itself in memory. Suitable for single-node and small clusters. The
/// key is wiped when it is dropped.
pub struct StaticRootKey {
    inner: [u8; 32],
}

impl Drop for StaticRootKey {
    fn drop(&mut self)
        ensures
            final(self)@ == zeroes(),
        opens_invariants none
        no_unwind
    {
        wipe(&mut self.inner);
    }
}

/// What unwrapping under a static key gives.
pub open spec fn static_unwrap(key: Seq<u8>, nonce: Seq<u8>, wrapped: Seq<u8>) -> Result<
    Seq<u8>,
    Seq<char>,
> {
    if nonce.len() != 12 {
        Err("kms: "@ + "invalid nonce length"@)
    } else {
        match aes_gcm_open(key, nonce, wrapped) {
            None => Err("kms: "@ + "unwrap: aead::Error"@),
            Some(p) => if p.len() != 32 {
                Err("kms: "@ + "wrapped key not 32 bytes"@)
            } else {
                Ok(p)
            },
        }
    }
}

/// Copies 12 bytes into an array.
pub(crate) fn array12(b: &[u8]) -> (r: [u8; 12])
    requires
        b@.len() == 12,
    ensures
        r@ == b@,
{
    let mut a: [u8; 12] = [0u8; 12];
    let mut i: usize = 0;
    while i < 12
        invariant
            i <= 12,
            b.len() == 12,
            forall|k: int| 0 <= k < i ==> #[trigger] a@[k] == b@[k],
        decreases 12 - i,
    {
        a[i] = b[i];
        i = i + 1;
    }
    assert(a@ =~= b@);
    a
}

/// Copies 32 bytes into an array.
pub(crate) fn array32(b: &[u8]) -> (r: [u8; 32])
    requires
        b@.len() == 32,
    ensures
        r@ == b@,
{
    let mut a: [u8; 32] = [0u8; 32];
    let mut i: usize = 0;
    while i < 32
        invariant
            i <= 32,
            b.len() == 32,
            forall|k: int| 0 <= k < i ==> #[trigger] a@[k] == b@[k],
        decreases 32 - i,
    {
        a[i] = b[i];
        i = i + 1;
    }
    assert(a@ =~= b@);
    a
}

impl StaticRootKey {
    /// The key.
    pub closed spec fn view(&self) -> Seq<u8> {
        self.inner@
    }

    pub fn new(bytes: [u8; 32]) -> (r: Self)
        ensures
            r@ == bytes@,
    {
        StaticRootKey { inner: bytes }
    }

    /// The root key of 32 bytes.
    pub fn from_slice(bytes: &[u8]) -> (r: Result<Self, RootKeyError>)
        ensures
            if bytes@.len() == 32 {
                r matches Ok(k) && k@ == bytes@
            } else {
                r == Err::<StaticRootKey, RootKeyError>(RootKeyError::InvalidLength)
            },
    {
        if bytes.len() != 32 {
            return Err(RootKeyError::InvalidLength);
        }
        Ok(StaticRootKey::new(array32(bytes)))
    }

    /// Wipes the key from memory.
    pub fn zeroize(&mut self)
        ensures
            final(self)@ == zeroes(),
    {
        wipe(&mut self.inner);
    }

    /// Wraps a data key under the given nonce.
    pub fn wrap_with(&self, data_key: &DataKey, nonce: [u8; 12]) -> (r: Result<
        (Vec<u8>, Vec<u8>),
        RootKeyError,
    >)
        ensures
            r matches Ok(p) && p.0@ == nonce@ && p.1@ == aes_gcm_seal(
                self@,
                nonce@,
                data_key.0@,
            ) && p.1@.len() == 48 && static_unwrap(self@, nonce@, p.1@) == Ok::<
                Seq<u8>,
                Seq<char>,
            >(data_key.0@),
    {
        assert(data_key.0@.len() == 32);
        match aead_encrypt(&self.inner, &nonce, data_key.0.as_slice()) {
            Some(wrapped) => {
                let n = vstd::slice::slice_to_vec(nonce.as_slice());
                assert(n@ =~= nonce@);
                Ok((n, wrapped))
            },
            None => Err(RootKeyError::Kms(String::from_str("wrap: aead::Error"))),
        }
    }
}

impl RootKey for StaticRootKey {
    open spec fn wraps_always(&self) -> bool {
        true
    }

    /// Sealed under the key, so that unwrapping gives the data key back.
    open spec fn may_wrap(&self, data_key: Seq<u8>, nonce: Seq<u8>, wrapped: Seq<u8>) -> bool {
        &&& nonce.len() == 12
        &&& wrapped.len() == 48
        &&& wrapped == aes_gcm_seal(self@, nonce, data_key)
        &&& static_unwrap(self@, nonce, wrapped) == Ok::<Seq<u8>, Seq<char>>(data_key)
    }

    open spec fn may_unwrap(
        &self,
        nonce: Seq<u8>,
        wrapped: Seq<u8>,
        outcome: Result<Seq<u8>, Seq<char>>,
    ) -> bool {
        outcome == static_unwrap(self@, nonce, wrapped)
    }

    fn wrap(&self, data_key: &DataKey) -> (r: Result<(Vec<u8>, Vec<u8>), RootKeyError>) {
        self.wrap_with(data_key, random_nonce())
    }

    fn unwrap(&self, nonce: &[u8], wrapped: &[u8]) -> (r: Result<DataKey, RootKeyError>) {
        if nonce.len() != 12 {
            return Err(RootKeyError::Kms(String::from_str("invalid nonce length")));
        }
        let n = array12(nonce);
        match aead_decrypt(&self.inner, &n, wrapped) {
            None => Err(RootKeyError::Kms(String::from_str("unwrap: aead::Error"))),
            Some(p) => {
                if p.len() != 32 {
                    return Err(RootKeyError::Kms(String::from_str("wrapped key not 32 bytes")));
                }
                Ok(DataKey(array32(p.as_slice())))
            },
        }
    }
}

} // verus!

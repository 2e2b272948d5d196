//! Ed25519 keys as plain bytes. The curve arithmetic is the `ed25519_dalek`
//! crate's; this module keeps the bytes and states what is known of them.

use vstd::prelude::*;

use crate::error::DecodingError;
use crate::metric::{all_zero, take32};
use crate::trusted::{
    ed25519_accepts, ed25519_public_of, ed25519_signature, generate_keypair, keypair_accepted,
    public_of, sign_with, wipe,
};

verus! {

/// The public half of a key pair: 32 bytes.
#[derive(Clone, Copy, Debug)]
pub struct PublicKey(pub [u8; 32]);

/// The secret half of a key pair: 32 bytes.
#[derive(Debug)]
pub struct SecretKey {
    bytes: [u8; 32],
}

/// A secret key together with its public key, as `ed25519_dalek` accepts them.
pub struct KeyPair {
    secret: [u8; 32],
    public: [u8; 32],
}

impl View for PublicKey {
    type V = Seq<u8>;

    open spec fn view(&self) -> Seq<u8> {
        self.0@
    }
}

impl View for SecretKey {
    type V = Seq<u8>;

    closed spec fn view(&self) -> Seq<u8> {
        self.bytes@
    }
}

impl View for KeyPair {
    type V = Seq<u8>;

    /// The 64 bytes of the pair: the secret key, then the public key.
    closed spec fn view(&self) -> Seq<u8> {
        self.secret@ + self.public@
    }
}

impl PublicKey {
    /// The bytes of the key.
    pub fn to_bytes(&self) -> (bytes: [u8; 32])
        ensures
            bytes@ == self@,
    {
        self.0
    }
}

impl SecretKey {
    /// Reads a secret key from exactly 32 bytes and wipes them. Any other
    /// length is refused and left as it is.
    pub fn from_bytes(bytes: &mut [u8]) -> (r: Result<SecretKey, DecodingError>)
        ensures
            r.is_ok() <==> old(bytes)@.len() == 32,
            r matches Ok(key) ==> key@ == old(bytes)@ && all_zero(final(bytes)@),
            r is Err ==> final(bytes)@ == old(bytes)@,
            final(bytes)@.len() == old(bytes)@.len(),
    {
        if bytes.len() != 32 {
            return Err(DecodingError);
        }
        let key = SecretKey { bytes: take32(bytes, 0) };
        assert(key@ =~= bytes@);
        wipe(bytes);
        Ok(key)
    }

    /// The bytes of the key.
    pub fn to_bytes(&self) -> (bytes: [u8; 32])
        ensures
            bytes@ == self@,
    {
        self.bytes
    }
}

impl KeyPair {
    #[verifier::type_invariant]
    spec fn accepted(&self) -> bool {
        ed25519_accepts(self.secret@ + self.public@)
    }

    /// What holds of every key pair: `ed25519_dalek` accepts its 64 bytes.
    pub open spec fn wf(&self) -> bool {
        self@.len() == 64 && ed25519_accepts(self@)
    }

    /// A fresh key pair from the thread's random generator.
    pub fn new() -> (pair: KeyPair)
        ensures
            pair.wf(),
    {
        let bytes = generate_keypair();
        let secret = take32(bytes.as_slice(), 0);
        let public = take32(bytes.as_slice(), 32);
        assert(secret@ + public@ =~= bytes@);
        KeyPair { secret, public }
    }

    /// The 64 bytes of the pair: the secret key, then the public key.
    pub fn encode(&self) -> (bytes: [u8; 64])
        ensures
            bytes@ == self@,
            self.wf(),
    {
        proof {
            use_type_invariant(self);
        }
        let mut out: [u8; 64] = [0u8; 64];
        let mut i: usize = 0;
        while i < 32
            invariant
                i <= 32,
                forall|j: int| 0 <= j < i ==> out@[j] == self.secret@[j],
                forall|j: int| 0 <= j < i ==> out@[32 + j] == self.public@[j],
            decreases 32 - i,
        {
            out[i] = self.secret[i];
            out[32 + i] = self.public[i];
            i += 1;
        }
        assert(out@ =~= self.secret@ + self.public@);
        out
    }

    /// Reads a key pair from the 64 bytes that `encode` gives, and wipes
    /// them. Bytes that `ed25519_dalek` does not accept as a key pair are
    /// refused and left as they are.
    pub fn decode(kp: &mut [u8]) -> (r: Result<KeyPair, DecodingError>)
        ensures
            r.is_ok() <==> ed25519_accepts(old(kp)@),
            r matches Ok(pair) ==> pair@ == old(kp)@ && pair.wf() && all_zero(final(kp)@),
            r is Err ==> final(kp)@ == old(kp)@,
            final(kp)@.len() == old(kp)@.len(),
    {
        if !keypair_accepted(kp) {
            return Err(DecodingError);
        }
        let secret = take32(kp, 0);
        let public = take32(kp, 32);
        assert(secret@ + public@ =~= kp@);
        let pair = KeyPair { secret, public };
        wipe(kp);
        Ok(pair)
    }

    /// The key pair that belongs to a secret key.
    pub fn from_secret(sk: SecretKey) -> (pair: KeyPair)
        ensures
            pair@ == sk@ + ed25519_public_of(sk@),
            pair.wf(),
    {
        match public_of(&sk.bytes) {
            Some(public) => KeyPair { secret: sk.bytes, public },
            None => unreached(),
        }
    }

    /// Signs `msg` with this pair. The signature is 64 bytes long.
    pub fn sign(&self, msg: &[u8]) -> (sig: Vec<u8>)
        ensures
            sig@ == ed25519_signature(self@, msg@),
            sig@.len() == 64,
    {
        let pair = self.encode();
        match sign_with(&pair, msg) {
            Some(sig) => sig,
            None => unreached(),
        }
    }

    /// The public half.
    pub fn public(&self) -> (key: PublicKey)
        ensures
            key@ == self@.subrange(32, 64),
            self.wf(),
    {
        proof {
            use_type_invariant(self);
        }
        assert(self.public@ =~= (self.secret@ + self.public@).subrange(32, 64));
        PublicKey(self.public)
    }

    /// The secret half.
    pub fn secret(&self) -> (key: SecretKey)
        ensures
            key@ == self@.subrange(0, 32),
            self.wf(),
    {
        proof {
            use_type_invariant(self);
        }
        assert(self.secret@ =~= (self.secret@ + self.public@).subrange(0, 32));
        SecretKey { bytes: self.secret }
    }
}

impl Clone for SecretKey {
    fn clone(&self) -> (copy: SecretKey)
        ensures
            copy@ == self@,
    {
        SecretKey { bytes: self.bytes }
    }
}

impl Clone for KeyPair {
    fn clone(&self) -> (copy: KeyPair)
        ensures
            copy@ == self@,
    {
        proof {
            use_type_invariant(self);
        }
        KeyPair { secret: self.secret, public: self.public }
    }
}

} // verus!

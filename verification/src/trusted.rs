//! What this library takes on trust from the crates it calls. Every function
//! here is a thin call into one of them; its contract is believed, not proved.
//! The spec functions without a body name results that only the called crate
//! can compute.

use vstd::prelude::*;
use zeroize::Zeroize;

use crate::metric::all_zero;

verus! {

/// The digest that `disco::symmetric::hash` gives for `data` when asked for
/// `out_len` bytes.
pub uninterp spec fn disco_hash(data: Seq<u8>, out_len: nat) -> Seq<u8>;

/// The base58 text that `bs58::encode` gives for `data` in the default alphabet.
pub uninterp spec fn base58_text(data: Seq<u8>) -> Seq<char>;

/// The bytes that `bs58::decode` reads from `text` in the default alphabet,
/// or `None` where it reports an error.
pub uninterp spec fn base58_bytes(text: Seq<char>) -> Option<Seq<u8>>;

/// Whether `ed25519_dalek::Keypair::from_bytes` accepts `pair`.
pub uninterp spec fn ed25519_accepts(pair: Seq<u8>) -> bool;

/// The public key that `ed25519_dalek` derives from the secret key `secret`.
pub uninterp spec fn ed25519_public_of(secret: Seq<u8>) -> Seq<u8>;

/// The signature that the key pair `pair` puts on `msg`.
pub uninterp spec fn ed25519_signature(pair: Seq<u8>, msg: Seq<u8>) -> Seq<u8>;

/// Whether `sig` parses as a signature, `public` parses as a public key, and
/// `ed25519_dalek::PublicKey::verify` accepts `sig` on `msg` under that key.
pub uninterp spec fn ed25519_verifies(public: Seq<u8>, msg: Seq<u8>, sig: Seq<u8>) -> bool;

/// Makes `bs58::decode::Error` known, so that a failed decoding can be
/// handed on. Nothing is known of what such an error holds.
#[verifier::external_type_specification]
#[verifier::external_body]
pub struct ExDecodeError(bs58::decode::Error);

/// Makes `time::SteadyTime` known: a reading of the monotonic clock.
/// Nothing is known of what a reading holds.
#[verifier::external_type_specification]
#[verifier::external_body]
pub struct ExSteadyTime(time::SteadyTime);

/// Calls `disco::symmetric::hash`. Claimed: the result is a function of the
/// two arguments and has the length asked for. The call panics below 32
/// bytes of output, which `requires` leaves out.
#[verifier::external_body]
pub(crate) fn hash(data: &[u8], out_len: usize) -> (digest: Vec<u8>)
    requires
        out_len >= 32,
    ensures
        digest@ == disco_hash(data@, out_len as nat),
        digest@.len() == out_len,
{
    disco::symmetric::hash(data, out_len)
}

/// Calls `disco::DiscoHash::random`, which fills a buffer from the operating
/// system's generator. Claimed: only the length of the result.
#[verifier::external_body]
pub(crate) fn random_bytes(len: usize) -> (bytes: Vec<u8>)
    ensures
        bytes@.len() == len,
{
    disco::DiscoHash::random(len)
}

/// Calls `bs58::encode(..).into_string()`. Claimed: the result is a function
/// of `data`, and `bs58::decode` reads `data` back from it.
#[verifier::external_body]
pub(crate) fn base58_encode(data: &[u8]) -> (text: String)
    ensures
        text@ == base58_text(data@),
        base58_bytes(text@) == Some(data@),
{
    bs58::encode(data).into_string()
}

/// Calls `bs58::decode(..).into_vec()`. Claimed: whether it succeeds, and
/// with which bytes, is a function of `text`.
#[verifier::external_body]
pub(crate) fn base58_decode(text: &str) -> (decoded: Result<Vec<u8>, bs58::decode::Error>)
    ensures
        match decoded {
            Ok(bytes) => base58_bytes(text@) == Some(bytes@),
            Err(_) => base58_bytes(text@).is_none(),
        },
{
    bs58::decode(text).into_vec()
}

/// Calls `ed25519_dalek::Keypair::generate` with the thread's generator.
/// Claimed: `Keypair::from_bytes` accepts the bytes of what was generated.
#[verifier::external_body]
pub(crate) fn generate_keypair() -> (pair: [u8; 64])
    ensures
        ed25519_accepts(pair@),
{
    ed25519_dalek::Keypair::generate(&mut rand::thread_rng()).to_bytes()
}

/// Calls `ed25519_dalek::Keypair::from_bytes` and says whether it succeeded.
/// Claimed: the answer is a function of `pair`, and only 64 bytes are accepted.
#[verifier::external_body]
pub(crate) fn keypair_accepted(pair: &[u8]) -> (ok: bool)
    ensures
        ok == ed25519_accepts(pair@),
        ok ==> pair@.len() == 64,
{
    ed25519_dalek::Keypair::from_bytes(pair).is_ok()
}

/// Calls `ed25519_dalek::PublicKey::from` on a secret key. Claimed: 32
/// bytes always parse as a secret key, the public key is a function of
/// them, and the secret key followed by it is a pair that
/// `Keypair::from_bytes` accepts.
#[verifier::external_body]
pub(crate) fn public_of(secret: &[u8; 32]) -> (public: Option<[u8; 32]>)
    ensures
        public.is_some(),
        public matches Some(bytes) ==> bytes@ == ed25519_public_of(secret@) && ed25519_accepts(
            secret@ + bytes@,
        ),
{
    match ed25519_dalek::SecretKey::from_bytes(secret) {
        Ok(key) => Some(ed25519_dalek::PublicKey::from(&key).to_bytes()),
        Err(_) => None,
    }
}

/// Calls `ed25519_dalek::Keypair::sign` on the pair that
/// `Keypair::from_bytes` reads. Claimed: there is a signature wherever the
/// pair is accepted; it is a function of the pair and the message, and is
/// 64 bytes long.
#[verifier::external_body]
pub(crate) fn sign_with(pair: &[u8; 64], msg: &[u8]) -> (sig: Option<Vec<u8>>)
    ensures
        sig.is_some() <==> ed25519_accepts(pair@),
        sig matches Some(bytes) ==> bytes@ == ed25519_signature(pair@, msg@) && bytes@.len()
            == 64,
{
    match ed25519_dalek::Keypair::from_bytes(pair) {
        Ok(keys) => Some(keys.sign(msg).to_bytes().to_vec()),
        Err(_) => None,
    }
}

/// Calls `ed25519_dalek::PublicKey::verify` on the parsed key and signature.
/// Claimed: the answer is a function of the three byte strings.
#[verifier::external_body]
pub(crate) fn signature_verifies(public: &[u8], msg: &[u8], sig: &[u8]) -> (ok: bool)
    ensures
        ok == ed25519_verifies(public@, msg@, sig@),
{
    let key = ed25519_dalek::PublicKey::from_bytes(public);
    let parsed = ed25519_dalek::Signature::from_bytes(sig);
    match (key, parsed) {
        (Ok(key), Ok(parsed)) => key.verify(msg, &parsed).is_ok(),
        _ => false,
    }
}

/// Calls `zeroize::Zeroize::zeroize` on a slice. Claimed: every byte is zero
/// afterwards and the length is unchanged.
#[verifier::external_body]
pub(crate) fn wipe(buf: &mut [u8])
    ensures
        final(buf)@.len() == old(buf)@.len(),
        all_zero(final(buf)@),
{
    buf.zeroize()
}

/// Calls `time::SteadyTime::now`. Nothing is claimed of the result.
#[verifier::external_body]
pub(crate) fn clock_now() -> time::SteadyTime {
    time::SteadyTime::now()
}

/// Subtracts two readings of the clock and calls
/// `time::Duration::num_milliseconds` on the difference. Nothing is claimed
/// of the result.
#[verifier::external_body]
pub(crate) fn millis_between(start: &time::SteadyTime, end: &time::SteadyTime) -> i64 {
    (*end - *start).num_milliseconds()
}

} // verus!

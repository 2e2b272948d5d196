//! Node identifiers: a 32-byte digest of a public key, its base58 text, the
//! puzzle that makes identifiers costly to mint, and the XOR metric.

use std::str::FromStr;
use vstd::prelude::*;
use vstd::std_specs::cmp::PartialEqSpecImpl;

use crate::error::{DistanceIsZero, GenError, ParseError};
use crate::key::{KeyPair, PublicKey};
use crate::metric::{
    all_zero, bytes_equal, bytes_xor, bytes_zero, lemma_be_value_zero, lemma_xor_bytes_commutes,
    lemma_xor_bytes_zero, lemma_xor_triangle, take32, xor_bytes, xor_distance, Distance,
};
use crate::trusted::{
    base58_bytes, base58_decode, base58_encode, base58_text, clock_now, disco_hash,
    ed25519_verifies, hash, millis_between, random_bytes, signature_verifies,
};

verus! {

/// The identifier of a node: the 32-byte digest of its public key.
#[derive(Clone, Copy, Debug, Eq, Ord)]
pub struct NodeId {
    pub discohash: [u8; 32],
}

impl View for NodeId {
    type V = Seq<u8>;

    /// The 32 bytes of the digest.
    open spec fn view(&self) -> Seq<u8> {
        self.discohash@
    }
}

/// What a round of the identifier puzzle decides.
#[derive(Clone, Copy, Debug)]
pub enum PuzzleStep {
    /// The candidate solves the puzzle.
    Solved(NodeId),
    /// The candidate does not, and time is left: try another key.
    Retry,
    /// The candidate does not, and the time is up.
    GiveUp,
}

/// The digest from which the identifier of the public key `key` is made.
pub open spec fn key_digest(key: Seq<u8>) -> Seq<u8> {
    disco_hash(key, 32)
}

/// The first `count` bytes of `digest` exist and are zero.
pub open spec fn leading_zero_bytes(digest: Seq<u8>, count: nat) -> bool {
    count <= digest.len() && forall|i: int| 0 <= i < count ==> digest[i] == 0
}

/// The digest that the text `text` stands for: what base58 decodes it to,
/// where that is exactly 32 bytes.
pub open spec fn parsed_digest(text: Seq<char>) -> Option<Seq<u8>> {
    match base58_bytes(text) {
        Some(bytes) => if bytes.len() == 32 {
            Some(bytes)
        } else {
            None
        },
        None => None,
    }
}

/// What one round of the puzzle decides, given the candidate of this round,
/// the milliseconds gone by and the seconds allowed. A candidate that
/// solves the puzzle is taken even when the time is up.
pub open spec fn puzzle_decision(
    candidate: Result<NodeId, GenError>,
    difficulty: nat,
    elapsed_ms: int,
    timeout_secs: nat,
) -> PuzzleStep {
    match candidate {
        Ok(id) if leading_zero_bytes(id@, difficulty) => PuzzleStep::Solved(id),
        _ => if elapsed_ms > timeout_secs * 1000 {
            PuzzleStep::GiveUp
        } else {
            PuzzleStep::Retry
        },
    }
}

/// Decides one round of the puzzle.
pub fn puzzle_step(
    candidate: Result<NodeId, GenError>,
    difficulty: usize,
    elapsed_ms: i64,
    timeout_secs: usize,
) -> (step: PuzzleStep)
    ensures
        step == puzzle_decision(candidate, difficulty as nat, elapsed_ms as int, timeout_secs as nat),
{
    if let Ok(id) = candidate {
        if id.has_leading_zero_bytes(difficulty) {
            return PuzzleStep::Solved(id);
        }
    }
    let allowed: i128 = (timeout_secs as i128) * 1000;
    if (elapsed_ms as i128) > allowed {
        PuzzleStep::GiveUp
    } else {
        PuzzleStep::Retry
    }
}

impl NodeId {
    /// The digest of the identifier of the public key `key`, or nothing
    /// where the key hashes to the all-zero digest.
    pub open spec fn spec_from_public_key(key: PublicKey) -> Option<Seq<u8>> {
        if all_zero(key_digest(key@)) {
            None
        } else {
            Some(key_digest(key@))
        }
    }

    /// The identifier of a public key: the digest of the key's bytes. A key
    /// whose digest is all zero has no identifier.
    pub fn from_public_key(key: PublicKey) -> (r: Result<NodeId, GenError>)
        ensures
            r.is_ok() <==> NodeId::spec_from_public_key(key).is_some(),
            r matches Ok(id) ==> NodeId::spec_from_public_key(key) == Some(id@),
            r matches Err(e) ==> e == GenError::PubkeyHashZero,
    {
        let digest = hash(key.0.as_slice(), 32);
        let id = NodeId { discohash: take32(digest.as_slice(), 0) };
        assert(id@ =~= digest@);
        if id.is_zero() {
            Err(GenError::PubkeyHashZero)
        } else {
            Ok(id)
        }
    }

    /// `id` is the identifier of some public key.
    pub open spec fn minted(id: NodeId) -> bool {
        exists|key: PublicKey| #[trigger] NodeId::spec_from_public_key(key) == Some(id@)
    }

    /// The identifier of a freshly generated key pair. The key pair itself
    /// is not kept.
    pub fn generate() -> (r: Result<NodeId, GenError>)
        ensures
            r matches Ok(id) ==> NodeId::minted(id) && !all_zero(id@),
            r matches Err(e) ==> e == GenError::PubkeyHashZero,
    {
        let pair = KeyPair::new();
        NodeId::from_public_key(pair.public())
    }

    /// Generates identifiers until one has `difficulty` leading zero bytes,
    /// or until more than `timeout` seconds have gone by. At least one
    /// candidate is tried whatever the timeout. No digest has more than 32
    /// bytes, and none that is generated is all zero, so a difficulty of 32
    /// or more always ends in `HardGenTimeOut`. The search also ends, in the
    /// same way, after 2^64 candidates.
    pub fn hard_generate(difficulty: usize, timeout: usize) -> (r: Result<NodeId, GenError>)
        ensures
            r matches Ok(id) ==> leading_zero_bytes(id@, difficulty as nat) && NodeId::minted(id)
                && !all_zero(id@),
            r matches Err(e) ==> e == GenError::HardGenTimeOut,
            difficulty >= 32 ==> r is Err,
    {
        let start = clock_now();
        let mut budget: u64 = u64::MAX;
        loop
            decreases budget,
        {
            let candidate = NodeId::generate();
            let now = clock_now();
            let elapsed = millis_between(&start, &now);
            match puzzle_step(candidate, difficulty, elapsed, timeout) {
                PuzzleStep::Solved(id) => {
                    return Ok(id);
                },
                PuzzleStep::GiveUp => {
                    return Err(GenError::HardGenTimeOut);
                },
                PuzzleStep::Retry => {},
            }
            if budget == 0 {
                return Err(GenError::HardGenTimeOut);
            }
            budget -= 1;
        }
    }

    /// An identifier whose first `output_len` bytes are random and whose
    /// other bytes are zero. No key pair stands behind it.
    pub fn random(output_len: usize) -> (id: NodeId)
        ensures
            forall|i: int| output_len <= i < 32 ==> id@[i] == 0,
    {
        let wanted: usize = if output_len < 32 {
            output_len
        } else {
            32
        };
        let bytes = random_bytes(wanted);
        let mut out: [u8; 32] = [0u8; 32];
        let mut i: usize = 0;
        while i < wanted
            invariant
                i <= wanted <= 32,
                bytes@.len() == wanted,
                forall|j: int| i <= j < 32 ==> out@[j] == 0,
            decreases wanted - i,
        {
            out[i] = bytes[i];
            i += 1;
        }
        NodeId { discohash: out }
    }

    /// Whether the first `count` bytes of the digest are zero. Never so for
    /// a `count` above 32.
    pub fn has_leading_zero_bytes(&self, count: usize) -> (yes: bool)
        ensures
            yes == leading_zero_bytes(self@, count as nat),
    {
        if count > 32 {
            return false;
        }
        let mut i: usize = 0;
        while i < count
            invariant
                i <= count <= 32,
                forall|j: int| 0 <= j < i ==> self@[j] == 0,
            decreases count - i,
        {
            if self.discohash[i] != 0 {
                assert(self@[i as int] != 0);
                return false;
            }
            i += 1;
        }
        true
    }

    /// The base58 text of the identifier. Parsing it gives the identifier back.
    pub fn to_base58(&self) -> (text: String)
        ensures
            text@ == base58_text(self@),
            parsed_digest(text@) == Some(self@),
    {
        base58_encode(self.discohash.as_slice())
    }

    /// The identifier that a base58 text stands for. Text that is not base58,
    /// or that decodes to another length than 32 bytes, is refused.
    pub fn from_base58(text: &str) -> (r: Result<NodeId, ParseError>)
        ensures
            r.is_ok() <==> parsed_digest(text@).is_some(),
            r matches Ok(id) ==> parsed_digest(text@) == Some(id@),
    {
        match base58_decode(text) {
            Ok(bytes) => NodeId::from_bytes(bytes),
            Err(e) => Err(ParseError::from(e)),
        }
    }

    /// The bytes of the digest.
    pub fn digest(&self) -> (bytes: &[u8])
        ensures
            bytes@ == self@,
    {
        self.discohash.as_slice()
    }

    /// The identifier with the given digest, which must be 32 bytes long.
    pub fn from_bytes(data: Vec<u8>) -> (r: Result<NodeId, ParseError>)
        ensures
            r.is_ok() <==> data@.len() == 32,
            r matches Ok(id) ==> id@ == data@,
    {
        if data.len() != 32 {
            return Err(ParseError);
        }
        let id = NodeId { discohash: take32(data.as_slice(), 0) };
        assert(id@ =~= data@);
        Ok(id)
    }

    /// Whether this identifier is the one of the public key `pubkey`: the
    /// digest of the key is computed again and compared.
    pub fn is_public_key(&self, pubkey: PublicKey) -> (owned: bool)
        ensures
            owned == (key_digest(pubkey@) == self@),
    {
        let digest = hash(pubkey.0.as_slice(), 32);
        let owner = take32(digest.as_slice(), 0);
        assert(owner@ =~= digest@);
        bytes_equal(&owner, &self.discohash)
    }

    /// Whether every byte of the digest is zero.
    pub fn is_zero(&self) -> (zero: bool)
        ensures
            zero == all_zero(self@),
    {
        bytes_zero(&self.discohash)
    }

    /// Whether `signature` is a signature on `message` under the Ed25519
    /// public key `public_key`. Bytes that are no key or no signature verify
    /// nothing.
    pub fn verify_msg(message: &[u8], signature: &[u8], public_key: &[u8]) -> (valid: bool)
        ensures
            valid == ed25519_verifies(public_key@, message@, signature@),
    {
        signature_verifies(public_key, message, signature)
    }

    /// The XOR of two digests, or nothing where they are equal.
    pub open spec fn spec_distance(&self, other: &NodeId) -> Option<Seq<u8>> {
        if self@ == other@ {
            None
        } else {
            Some(xor_bytes(self@, other@))
        }
    }

    /// The XOR distance of two identifiers as a number, or nothing where
    /// they are equal.
    pub open spec fn spec_metric_distance(&self, other: &NodeId) -> Option<nat> {
        if self@ == other@ {
            None
        } else {
            Some(xor_distance(self@, other@))
        }
    }
}

impl PartialEq for NodeId {
    fn eq(&self, other: &NodeId) -> (same: bool) {
        bytes_equal(&self.discohash, &other.discohash)
    }
}

impl PartialEqSpecImpl for NodeId {
    open spec fn obeys_eq_spec() -> bool {
        true
    }

    open spec fn eq_spec(&self, other: &NodeId) -> bool {
        self@ == other@
    }
}

impl FromStr for NodeId {
    type Err = ParseError;

    fn from_str(s: &str) -> (r: Result<NodeId, ParseError>)
        ensures
            r.is_ok() <==> parsed_digest(s@).is_some(),
            r matches Ok(id) ==> parsed_digest(s@) == Some(id@),
    {
        NodeId::from_base58(s)
    }
}

/// A metric over identifiers.
pub trait KadMetric: PartialEq + Clone {
    type Err;

    type Metric;

    /// The distance as an identifier-shaped value.
    fn distance(&self, other: &Self) -> Result<Self, Self::Err>;

    /// The distance as a number that can be ordered.
    fn metric_distance(&self, other: &Self) -> Result<Self::Metric, Self::Err>;
}

impl KadMetric for NodeId {
    type Err = DistanceIsZero;

    type Metric = Distance;

    /// The XOR of the two digests. An identifier has no distance to itself.
    fn distance(&self, other: &NodeId) -> (r: Result<NodeId, DistanceIsZero>)
        ensures
            r.is_ok() <==> self.spec_distance(other).is_some(),
            r matches Ok(d) ==> self.spec_distance(other) == Some(d@) && !all_zero(d@),
    {
        let x = bytes_xor(&self.discohash, &other.discohash);
        proof {
            lemma_xor_bytes_zero(self@, other@);
        }
        if bytes_zero(&x) {
            Err(DistanceIsZero)
        } else {
            Ok(NodeId { discohash: x })
        }
    }

    /// The XOR of the two digests as a number. An identifier has no distance
    /// to itself.
    fn metric_distance(&self, other: &NodeId) -> (r: Result<Distance, DistanceIsZero>)
        ensures
            r.is_ok() <==> self.spec_metric_distance(other).is_some(),
            r matches Ok(d) ==> self.spec_metric_distance(other) == Some(d@) && d@ > 0,
    {
        match Distance::between(&self.discohash, &other.discohash) {
            Some(d) => Ok(d),
            None => Err(DistanceIsZero),
        }
    }
}

/// Two different identifiers are at the same distance from each other in
/// either direction, and no identifier has a distance to itself.
pub proof fn law_distance_symmetric(a: NodeId, b: NodeId)
    ensures
        a.spec_distance(&b) == b.spec_distance(&a),
        a.spec_metric_distance(&b) == b.spec_metric_distance(&a),
        a.spec_distance(&a).is_none(),
        a.spec_metric_distance(&a).is_none(),
{
    lemma_xor_bytes_commutes(a@, b@);
}

/// Two different identifiers are at a distance above zero.
pub proof fn law_distance_positive(a: NodeId, b: NodeId)
    requires
        a@ != b@,
    ensures
        xor_distance(a@, b@) > 0,
{
    lemma_xor_bytes_zero(a@, b@);
    lemma_be_value_zero(xor_bytes(a@, b@));
}

/// The distance from `a` to `c` is no longer than the way through `b`.
pub proof fn law_triangle_inequality(a: NodeId, b: NodeId, c: NodeId)
    ensures
        xor_distance(a@, c@) <= xor_distance(a@, b@) + xor_distance(b@, c@),
{
    lemma_xor_triangle(a@, b@, c@);
}

/// Public keys whose digests differ do not have the same identifier.
pub proof fn law_distinct_keys_distinct_ids(k1: PublicKey, k2: PublicKey)
    requires
        key_digest(k1@) != key_digest(k2@),
    ensures
        NodeId::spec_from_public_key(k1).is_some() || NodeId::spec_from_public_key(k2).is_some()
            ==> NodeId::spec_from_public_key(k1) != NodeId::spec_from_public_key(k2),
{
}

/// Identifiers with the same digest are equal.
pub proof fn law_equal_by_digest(a: NodeId, b: NodeId)
    ensures
        a == b <==> a@ == b@,
{
    if a@ == b@ {
        assert(a.discohash =~= b.discohash);
    }
}

} // verus!

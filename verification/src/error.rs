//! Error values of the routing core. None of them is fatal: the caller
//! decides whether to retry, to report or to drop the operation.

use vstd::prelude::*;
use vstd::std_specs::convert::FromSpecImpl;

verus! {

/// Identifier text that is not base58, or that does not decode to exactly
/// 32 bytes.
#[derive(Clone, Copy, Debug, PartialEq, Eq, Structural)]
pub struct ParseError;

/// The distance between an identifier and itself was asked for.
#[derive(Clone, Copy, Debug, PartialEq, Eq, Structural)]
pub struct DistanceIsZero;

/// Bytes that do not hold an Ed25519 key pair.
#[derive(Clone, Copy, Debug, PartialEq, Eq, Structural)]
pub struct DecodingError;

/// Why no identifier was minted.
#[derive(Clone, Copy, Debug, PartialEq, Eq, Structural)]
pub enum GenError {
    /// The public key hashed to the all-zero digest; try a fresh key.
    PubkeyHashZero,
    /// The puzzle was not solved within the time allowed.
    HardGenTimeOut,
}

impl From<bs58::decode::Error> for ParseError {
    fn from(error: bs58::decode::Error) -> (e: ParseError) {
        ParseError
    }
}

impl FromSpecImpl<bs58::decode::Error> for ParseError {
    open spec fn obeys_from_spec() -> bool {
        true
    }

    open spec fn from_spec(error: bs58::decode::Error) -> ParseError {
        ParseError
    }
}

impl ParseError {
    /// The message shown for this error.
    pub fn message(&self) -> (text: String)
        ensures
            text@ == "parsing via bs58 did not succeed"@,
    {
        "parsing via bs58 did not succeed".to_string()
    }
}

impl DistanceIsZero {
    /// The message shown for this error.
    pub fn message(&self) -> (text: String)
        ensures
            text@ == "the calculated distance is zero (comparison with self)"@,
    {
        "the calculated distance is zero (comparison with self)".to_string()
    }
}

} // verus!

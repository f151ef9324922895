//! The calls that the connectors make into other crates. Nothing in this file
//! is proved: each contract restates what the source or the documentation of
//! the called function shows, and the rest of the library is proved from
//! these contracts.

use vstd::prelude::*;
use vstd::string::*;
use vstd::utf8::valid_utf8;

verus! {

/// The 128-bit XXH3 hash (seed 0, default secret) of a byte string.
pub uninterp spec fn xxh3_128_of(bytes: Seq<u8>) -> u128;

/// Hashes `bytes` with `xxhash_rust::xxh3::Xxh3`: a hasher made by
/// `Xxh3::default`, fed once through `update`, read through `digest128`.
/// The contract claims that the digest depends on the bytes alone.
#[verifier::external_body]
pub(crate) fn xxh3_128(bytes: &[u8]) -> (digest: u128)
    ensures
        digest == xxh3_128_of(bytes@),
{
    let mut hasher = xxhash_rust::xxh3::Xxh3::default();
    hasher.update(bytes);
    hasher.digest128()
}

/// Why a glob pattern does not compile: the approximate character index of
/// the fault and a message.
#[derive(Debug, Clone, PartialEq, Eq)]
pub struct GlobPatternError {
    pub pos: usize,
    pub msg: String,
}

/// The fault that `glob::Pattern::new` finds in a pattern, if any: its
/// position and message.
pub uninterp spec fn glob_pattern_fault(pattern: Seq<char>) -> Option<(usize, Seq<char>)>;

/// Compiles `pattern` with `glob::Pattern::new` and drops the compiled form.
/// The contract claims that success and, on failure, the position and the
/// message of the error depend on the pattern alone.
#[verifier::external_body]
pub(crate) fn check_glob_pattern(pattern: &str) -> (r: Result<(), GlobPatternError>)
    ensures
        match r {
            Ok(_) => glob_pattern_fault(pattern@) is None,
            Err(e) => glob_pattern_fault(pattern@) == Some((e.pos, e.msg@)),
        },
{
    match glob::Pattern::new(pattern) {
        Ok(_) => Ok(()),
        Err(e) => Err(GlobPatternError { pos: e.pos, msg: e.msg.to_string() }),
    }
}

/// The instant that an RFC 3339 text denotes, as whole seconds since the Unix
/// epoch and the nanoseconds within that second, if the text is well formed.
pub uninterp spec fn rfc3339_instant(text: Seq<char>) -> Option<(i64, u32)>;

/// Parses `text` with `chrono::DateTime::parse_from_rfc3339` and reads the
/// instant through `timestamp` and `timestamp_subsec_nanos`. The contract
/// claims that the outcome depends on the text alone. `chrono` orders two
/// parsed values as it orders these pairs, first by seconds and then by
/// nanoseconds.
#[verifier::external_body]
pub(crate) fn parse_rfc3339(text: &str) -> (r: Option<(i64, u32)>)
    ensures
        r == rfc3339_instant(text@),
{
    match chrono::DateTime::parse_from_rfc3339(text) {
        Ok(moment) => Some((moment.timestamp(), moment.timestamp_subsec_nanos())),
        Err(_) => None,
    }
}

/// Draws a number with `rand::Rng::gen` from `rand::thread_rng`. Nothing is
/// claimed of the number.
#[verifier::external_body]
pub(crate) fn random_u128() -> (id: u128) {
    rand::Rng::gen::<u128>(&mut rand::thread_rng())
}

/// Reads `bytes` as text with `core::str::from_utf8`. The contract claims
/// that this succeeds exactly on valid UTF-8 and then yields the text whose
/// encoding the bytes are.
#[verifier::external_body]
pub(crate) fn str_from_utf8(bytes: &[u8]) -> (r: Option<&str>)
    ensures
        r is Some <==> valid_utf8(bytes@),
        r is Some ==> r.unwrap().spec_bytes() == bytes@,
{
    core::str::from_utf8(bytes).ok()
}

} // verus!

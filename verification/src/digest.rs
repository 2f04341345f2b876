//! Trusted boundary to the cryptographic digest and to the clock.

use vstd::prelude::*;

verus! {

/// The lowercase hexadecimal SHA-256 digest of a byte sequence. The digest
/// itself is not written out here: it is a fixed function of its input alone,
/// and every contract of this crate speaks of it through this name.
pub uninterp spec fn sha256_hex_of(bytes: Seq<u8>) -> Seq<char>;

/// A lowercase hexadecimal digit: '0' to '9' or 'a' to 'f'.
pub open spec fn is_lower_hex_digit(c: char) -> bool {
    (('0' as u32) <= (c as u32) && (c as u32) <= ('9' as u32)) || (('a' as u32) <= (c as u32) && (c
        as u32) <= ('f' as u32))
}

/// The shape of a rendered SHA-256 digest: exactly 64 characters, each a
/// lowercase hexadecimal digit.
pub open spec fn is_hex_hash(s: Seq<char>) -> bool {
    s.len() == 64 && forall|i: int| 0 <= i < s.len() ==> #[trigger] is_lower_hex_digit(s[i])
}

/// Relies on sha2's Sha256::digest: a 256-bit digest that depends on the
/// input bytes alone, rendered as two lowercase hexadecimal digits per
/// digest byte — 64 characters in all.
#[verifier::external_body]
pub fn sha256_hex(bytes: &[u8]) -> (r: String)
    ensures
        r@ == sha256_hex_of(bytes@),
        is_hex_hash(r@),
{
    format!("{:x}", <sha2::Sha256 as sha2::Digest>::digest(bytes))
}

/// Relies on chrono's DateTime::from_timestamp and timestamp_millis: the
/// current time as milliseconds since the Unix epoch. Nothing is promised of
/// the value: it depends on the clock, not on any argument. The clock is
/// read through both arms of SystemTime's epoch difference, so the call
/// returns on every clock value: a pre-epoch clock yields the negated
/// whole-second count, and outside chrono's representable range the value
/// saturates.
#[verifier::external_body]
pub fn now_millis() -> i64 {
    let (sec, nsec) = match std::time::SystemTime::now().duration_since(std::time::UNIX_EPOCH) {
        Ok(d) => (i64::try_from(d.as_secs()).unwrap_or(i64::MAX), d.subsec_nanos()),
        Err(e) => (i64::try_from(e.duration().as_secs()).unwrap_or(i64::MAX).saturating_neg(), 0),
    };
    match chrono::DateTime::from_timestamp(sec, nsec) {
        Some(t) => t.timestamp_millis(),
        None => if sec < 0 { i64::MIN } else { i64::MAX },
    }
}

} // verus!

//! The random server identifier.

use vstd::prelude::*;

verus! {

/// An ASCII letter or digit.
pub open spec fn is_alnum(b: u8) -> bool {
    (0x30 <= b <= 0x39) || (0x41 <= b <= 0x5A) || (0x61 <= b <= 0x7A)
}

/// A fresh 40-character alphanumeric identifier.
///
/// Relies on rand's `Alphanumeric` distribution, which samples bytes
/// from `A`-`Z`, `a`-`z` and `0`-`9` only; the identifier is random, so
/// nothing beyond its length and alphabet is promised.
#[verifier::external_body]
pub fn gen_id() -> (r: Vec<u8>)
    ensures
        r@.len() == 40,
        forall|i: int| 0 <= i < 40 ==> is_alnum(#[trigger] r@[i]),
{
    <rand::rngs::ThreadRng as rand::Rng>::sample_iter(rand::rng(), rand::distr::Alphanumeric)
        .take(40)
        .collect()
}

/// Milliseconds since the UNIX epoch, by the system clock.
///
/// Relies on chrono's `Utc::now` and `timestamp_millis`; the clock can
/// say anything, so nothing is promised of the value.
#[verifier::external_body]
pub fn now_millis_raw() -> (r: i64)
{
    chrono::Utc::now().timestamp_millis()
}

/// The current time clamped to the non-negative range the keyspace
/// uses.
pub fn now_millis() -> (r: u64)
{
    let raw = now_millis_raw();
    if raw < 0 {
        0
    } else {
        raw as u64
    }
}

} // verus!

//! Sources of chance and of the moment: the thread's random number
//! generator, fresh identifiers and the clock. What they give is taken on
//! trust; each contract says what holds of every outcome.

use vstd::prelude::*;

verus! {

/// `rand::rngs::ThreadRng`, carried through as it is.
#[verifier::external_type_specification]
#[verifier::external_body]
pub struct ExThreadRng(rand::rngs::ThreadRng);

/// `rand::thread_rng`: the calling thread's generator.
#[verifier::external_body]
pub(crate) fn thread_rng() -> rand::rngs::ThreadRng {
    rand::thread_rng()
}

/// `Rng::gen_range` on `low..=high`: some number of the range, which must
/// not be empty.
#[verifier::external_body]
pub(crate) fn gen_within(rng: &mut rand::rngs::ThreadRng, low: u64, high: u64) -> (r: u64)
    requires
        low <= high,
    ensures
        low <= r <= high,
{
    rand::Rng::gen_range(rng, low..=high)
}

/// Some number of `low..high`, which must not be empty.
pub(crate) fn gen_below(rng: &mut rand::rngs::ThreadRng, low: usize, high: usize) -> (r: usize)
    requires
        low < high,
    ensures
        low <= r < high,
{
    gen_within(rng, low as u64, (high - 1) as u64) as usize
}

/// `Rng::gen_ratio`: true with a chance of `numerator` in `denominator`;
/// surely true when the two are equal and surely false when `numerator` is
/// zero.
#[verifier::external_body]
pub(crate) fn gen_ratio(rng: &mut rand::rngs::ThreadRng, numerator: u32, denominator: u32) -> (r:
    bool)
    requires
        0 < denominator,
        numerator <= denominator,
    ensures
        numerator == denominator ==> r,
        numerator == 0 ==> !r,
{
    rand::Rng::gen_ratio(rng, numerator, denominator)
}

/// `Rng::gen` for `i64`: any value.
#[verifier::external_body]
pub(crate) fn gen_i64(rng: &mut rand::rngs::ThreadRng) -> i64 {
    rand::Rng::gen(rng)
}

/// `Rng::gen` for `u64`: any value.
#[verifier::external_body]
pub(crate) fn gen_u64(rng: &mut rand::rngs::ThreadRng) -> u64 {
    rand::Rng::gen(rng)
}

/// `Rng::gen` for `u32`: any value.
#[verifier::external_body]
pub(crate) fn gen_u32(rng: &mut rand::rngs::ThreadRng) -> u32 {
    rand::Rng::gen(rng)
}

/// The shape of an identifier in hyphenated lower-case notation: 36
/// characters, hyphens after the 8th, 12th, 16th and 20th digit, and
/// hexadecimal digits elsewhere.
pub open spec fn is_uuid_text(s: Seq<char>) -> bool {
    &&& s.len() == 36
    &&& forall|i: int|
        0 <= i < 36 ==> if i == 8 || i == 13 || i == 18 || i == 23 {
            (#[trigger] s[i]) == '-'
        } else {
            ('0' <= s[i] <= '9') || ('a' <= s[i] <= 'f')
        }
}

/// `Uuid::new_v4` written out: a fresh random identifier in hyphenated
/// lower-case notation.
#[verifier::external_body]
pub(crate) fn new_uuid_text() -> (r: String)
    ensures
        is_uuid_text(r@),
{
    uuid::Uuid::new_v4().to_string()
}

/// `Utc::now` written out: the present moment. Nothing is promised of the
/// text.
#[verifier::external_body]
pub(crate) fn now_text() -> String {
    chrono::Utc::now().to_string()
}

} // verus!

//! The content-hash boundary: the digest that names captured commands.

use sha3::digest::ExtendableOutput;
use sha3::digest::Update;
use sha3::digest::XofReader;
use vstd::prelude::*;

verus! {

/// The character is a lower-case hex digit.
pub open spec fn lower_hex_digit_v(c: char) -> bool {
    (48 <= c as int <= 57) || (97 <= c as int <= 102)
}

/// The digest text of a command: sixteen bytes of its extendable-output
/// hash, written as lower-case hex. A function of the characters alone.
pub uninterp spec fn shake128_hex_of(s: Seq<char>) -> Seq<char>;

/// Relies on sha3's Shake128 (an extendable-output digest read at
/// sixteen bytes, a function of the input alone) and on hex::encode
/// (two lower-case digits per byte, so thirty-two characters here).
#[verifier::external_body]
pub fn to_sha3(s: &str) -> (r: String)
    ensures
        r@ == shake128_hex_of(s@),
        r@.len() == 32,
        forall|i: int| 0 <= i < r@.len() ==> lower_hex_digit_v(#[trigger] r@[i]),
{
    let mut hasher = sha3::Shake128::default();
    hasher.update(s.as_bytes());
    let mut output = [0u8; 16];
    hasher.finalize_xof().read(&mut output);
    hex::encode(output)
}

} // verus!

//! Random server names for the gVim instances of the stock.

use vstd::prelude::*;
use crate::text::{decimal_string, u64_to_decimal};

verus! {

/// `rand::random::<u32>()`: a number drawn from the thread-local generator.
/// Nothing is claimed of the number.
#[verifier::external_body]
fn random_u32() -> u32 {
    rand::random::<u32>()
}

/// The server name made from the number `n`: `PANTY-` and `n` in decimal.
pub open spec fn name_of_number(n: u32) -> Seq<char> {
    "PANTY-"@ + decimal_string(n as nat)
}

/// A name that the namer can give: one made from some number.
pub open spec fn is_generated_name(s: Seq<char>) -> bool {
    exists|n: u32| s == name_of_number(n)
}

/// The server name made from the number `n`.
pub fn name_from_number(n: u32) -> (r: String)
    ensures
        r@ == name_of_number(n),
{
    let mut s = "PANTY-".to_string();
    let digits = u64_to_decimal(n as u64);
    s.append(digits.as_str());
    s
}

/// A server name made from a random number.
pub fn name() -> (r: String)
    ensures
        is_generated_name(r@),
{
    let n = random_u32();
    let r = name_from_number(n);
    assert(r@ == name_of_number(n));
    r
}

} // verus!

//! Random identifiers for notes and replicas.

use rand::Rng;
use vstd::prelude::*;
use crate::text::{code_point, push_char};

verus! {

/// How many characters an identifier has.
pub const IDENTIFIER_LENGTH: usize = 10;

/// `c` is an ASCII letter or digit.
pub open spec fn is_ascii_alphanumeric(c: char) -> bool {
    let p = code_point(c);
    ||| 0x30 <= p <= 0x39
    ||| 0x41 <= p <= 0x5A
    ||| 0x61 <= p <= 0x7A
}

/// `s` has the shape of an identifier: ten ASCII letters or digits.
pub open spec fn is_identifier(s: Seq<char>) -> bool {
    &&& s.len() == IDENTIFIER_LENGTH
    &&& forall|i: int| 0 <= i < s.len() ==> is_ascii_alphanumeric(#[trigger] s[i])
}

/// Draws one byte from `rand::distributions::Alphanumeric` with the
/// generator of the current thread (`rand::thread_rng`). The contract
/// claims only what holds of every draw: the byte is an ASCII letter or
/// digit. Which one it is depends on the generator's state, so two calls
/// may differ. `thread_rng` aborts the program if the operating system
/// gives it no seed; no argument decides that.
#[verifier::external_body]
fn random_alphanumeric() -> (b: u8)
    ensures
        is_ascii_alphanumeric(b as char),
{
    rand::thread_rng().sample(rand::distributions::Alphanumeric)
}

/// A fresh identifier: ten random ASCII letters and digits.
pub fn rand_string() -> (id: String)
    ensures
        is_identifier(id@),
{
    let mut id = String::new();
    let mut n: usize = 0;
    while n < IDENTIFIER_LENGTH
        invariant
            n <= IDENTIFIER_LENGTH,
            id@.len() == n,
            forall|i: int| 0 <= i < id@.len() ==> is_ascii_alphanumeric(#[trigger] id@[i]),
        decreases IDENTIFIER_LENGTH - n,
    {
        let b = random_alphanumeric();
        push_char(&mut id, b as char);
        n += 1;
    }
    id
}

} // verus!

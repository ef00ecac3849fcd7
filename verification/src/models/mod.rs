//! The data types of the two APIs.
pub mod anthropic;
pub mod openai;

use vstd::prelude::*;

verus! {

/// A single-precision number by its IEEE 754 bits. Sampling parameters pass through unread.
#[derive(Clone, Copy, Debug, PartialEq, Eq, Structural)]
pub struct Float32 {
    pub bits: u32,
}

/// The text of an optional string.
pub open spec fn opt_text(s: Option<String>) -> Option<Seq<char>> {
    match s {
        Some(s) => Some(s@),
        None => None,
    }
}

/// A copy of an optional string.
pub fn copy_opt(s: &Option<String>) -> (r: Option<String>)
    ensures
        opt_text(r) == opt_text(*s),
        r is Some <==> s is Some,
{
    match s {
        Some(s) => Some(s.clone()),
        None => None,
    }
}

} // verus!

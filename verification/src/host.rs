//! The arithmetic that the language borrows from its embedder.

use vstd::prelude::*;

verus! {

/// Single-precision arithmetic, supplied by whoever runs the language.
///
/// A floating-point number travels through the library as the 32 bits of its
/// IEEE 754 encoding. The library never computes on those bits: it hands them
/// to this interface and carries the answer on. Nothing is assumed of an
/// implementation, so every contract that depends on an answer says only
/// where the answer ends up.
pub trait FloatUnit {
    /// The number that a numeral such as `12.5` denotes, if it denotes one.
    fn parse(&self, text: &String) -> Option<u32>;

    /// The number nearest to an integer.
    fn from_int(&self, value: i32) -> u32;

    fn add(&self, a: u32, b: u32) -> u32;

    fn sub(&self, a: u32, b: u32) -> u32;

    fn mul(&self, a: u32, b: u32) -> u32;

    fn div(&self, a: u32, b: u32) -> u32;

    fn rem(&self, a: u32, b: u32) -> u32;

    fn neg(&self, a: u32) -> u32;

    fn equal(&self, a: u32, b: u32) -> bool;

    fn less(&self, a: u32, b: u32) -> bool;

    fn less_equal(&self, a: u32, b: u32) -> bool;

    /// The decimal text of a number.
    fn to_text(&self, a: u32) -> String;
}

} // verus!

//! What the interpreter asks of the program around it.

use crate::numeral::is_numeral;
use crate::types::{RispErr, RispExp};
use vstd::prelude::*;

verus! {

/// The host of an interpreter. It does the double-precision arithmetic, on
/// numbers given and returned as bit patterns, it reads and writes decimal
/// notation, and it runs the native procedures that it registered under a
/// name.
///
/// The arithmetic has a model: `sum_of` and the functions beside it say what
/// `add` and the methods beside it return, and the library's contracts speak
/// of them. A host gives each as the plain function that its method calls.
/// That a method returns what its model says is believed of every host and
/// proved of none. Of what a host reads, writes or runs the library believes
/// nothing: its contracts hold for every answer.
pub trait Host {
    /// What `add` returns.
    spec fn sum_of(a: u64, b: u64) -> u64;

    /// What `subtract` returns.
    spec fn difference_of(a: u64, b: u64) -> u64;

    /// What `multiply` returns.
    spec fn product_of(a: u64, b: u64) -> u64;

    /// What `to_integer` returns.
    spec fn integer_of(bits: u64) -> i64;

    /// What `from_integer` returns.
    spec fn number_of(n: i64) -> u64;

    /// The number that the numeral `token` denotes.
    fn parse_number(&self, token: &str) -> u64
        requires
            is_numeral(token@),
    ;

    /// The number in decimal notation.
    fn format_number(&self, bits: u64) -> String;

    fn add(&self, a: u64, b: u64) -> (r: u64)
        ensures
            r == Self::sum_of(a, b),
    ;

    fn subtract(&self, a: u64, b: u64) -> (r: u64)
        ensures
            r == Self::difference_of(a, b),
    ;

    fn multiply(&self, a: u64, b: u64) -> (r: u64)
        ensures
            r == Self::product_of(a, b),
    ;

    /// The number without its fraction.
    fn to_integer(&self, bits: u64) -> (r: i64)
        ensures
            r == Self::integer_of(bits),
    ;

    /// The number nearest to `n`.
    fn from_integer(&self, n: i64) -> (r: u64)
        ensures
            r == Self::number_of(n),
    ;

    /// Runs the native procedure registered as `name` on evaluated arguments.
    fn call(&mut self, name: &str, args: &[RispExp]) -> Result<RispExp, RispErr>;
}

} // verus!

//! The arithmetic kernel: the work on numbers that needs floating point,
//! which a host with floating point does for the interpreter: reading and
//! showing numbers, and arithmetic on them.

use vstd::prelude::*;

verus! {

/// Arithmetic on numbers held as binary64 bit patterns.
pub trait Kernel {
    /// The number that a literal writes: digits, with or without a high
    /// minus before them and a point and further digits behind them.
    fn read(&mut self, literal: &str) -> u64;

    /// The text in which a number is shown.
    fn text(&mut self, a: u64) -> String;

    /// The negation of a number.
    fn neg(&mut self, a: u64) -> u64;

    /// The sum of two numbers.
    fn add(&mut self, a: u64, b: u64) -> u64;

    /// The first number less the second.
    fn sub(&mut self, a: u64, b: u64) -> u64;

    /// The product of two numbers.
    fn mul(&mut self, a: u64, b: u64) -> u64;

    /// The first number divided by the second.
    fn div(&mut self, a: u64, b: u64) -> u64;
}

} // verus!

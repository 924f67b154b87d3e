//! The host interface for floating-point arithmetic.
//!
//! The engine carries a 64-bit float as the `u64` holding its IEEE 754 bit
//! pattern, and never computes with one itself.  Every floating-point
//! operation is delegated to an implementation of [`FloatOps`] supplied by
//! the embedding application (or by a test harness).  The trait promises
//! nothing about its results: every contract in this crate that involves a
//! float states what holds for *any* bits the host hands back, while
//! integer, boolean and string results are pinned exactly.

use vstd::prelude::*;

verus! {

/// Floating-point operations on IEEE 754 bit patterns.
///
/// `a`, `b` and the `u64` results are bit patterns in the sense of
/// `to_bits`/`from_bits`; `of_text` reads a decimal literal such as `2.5`,
/// and `text` renders a value the way the host's formatter would.
pub trait FloatOps {
    /// Bits of `a + b`.
    fn add(&self, a: u64, b: u64) -> u64;

    /// Bits of `a - b`.
    fn sub(&self, a: u64, b: u64) -> u64;

    /// Bits of `a * b`.
    fn mul(&self, a: u64, b: u64) -> u64;

    /// Bits of `a / b`.
    fn div(&self, a: u64, b: u64) -> u64;

    /// Bits of the remainder of `a / b`.
    fn rem(&self, a: u64, b: u64) -> u64;

    /// Bits of `a` raised to the power `b`.
    fn pow(&self, a: u64, b: u64) -> u64;

    /// Whether `a == b` as floats.
    fn eq_bits(&self, a: u64, b: u64) -> bool;

    /// Whether `a < b` as floats.
    fn lt(&self, a: u64, b: u64) -> bool;

    /// Whether `a <= b` as floats.
    fn le(&self, a: u64, b: u64) -> bool;

    /// Whether `a > b` as floats.
    fn gt(&self, a: u64, b: u64) -> bool;

    /// Whether `a >= b` as floats.
    fn ge(&self, a: u64, b: u64) -> bool;

    /// Bits of the float nearest to the integer `x`.
    fn of_int(&self, x: i64) -> u64;

    /// The integer cast of the float with bits `b`.
    fn to_int(&self, b: u64) -> i64;

    /// Bits of the value of a decimal literal (digits, `.`, digits).
    fn of_text(&self, s: &str) -> u64;

    /// The rendering of the float with bits `b`.
    fn text(&self, b: u64) -> String;
}

} // verus!

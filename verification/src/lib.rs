//! Signed arbitrary-precision integers in sign-magnitude form.
//!
//! An [`Integer`] stores its magnitude as a little-endian vector of 64-bit
//! limbs together with a sign flag, and offers exact construction,
//! comparison, addition, subtraction, multiplication, exponentiation and
//! hexadecimal formatting.  Every operation carries a contract relating the
//! result to the mathematical value of its operands.

pub mod hex;
pub mod integer;
pub mod laws;
pub mod limbs;

pub use integer::Integer;

//! Binary finite fields GF(2^n) with two verified multiplication strategies,
//! a capability-driven dispatcher, a carryless-multiply primitive, and one
//! AES encryption round.

pub mod aes;
pub mod cpu;
pub mod equiv;
pub mod gf2n;
pub mod pmul;

pub use cpu::Capabilities;

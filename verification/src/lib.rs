//! Verified building blocks of a two-party Bitcoin contract stack.

pub mod decode;
pub mod harness;
pub mod hashing;
pub mod lamport;
pub mod n4bit;
pub mod script;

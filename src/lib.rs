//! A mint whose only authority is a program-derived address.
//!
//! The authority has no private key: its address is derived from a fixed seed
//! label and the program's identity, and the program proves control of it to
//! other programs by presenting the seeds instead of a signature.
pub mod address;
pub mod authority;
pub mod error;
pub mod ledger;
pub mod program;

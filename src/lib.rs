//! Chaum-Pedersen proof of knowledge of a discrete logarithm, used as a
//! password-authentication primitive: the group setting, the proof engine and
//! the verifier's challenge bookkeeping.

pub mod bignum;
pub mod zkp;
pub mod error;
pub mod constants;
pub mod table;
pub mod registry;
pub mod service;

//! Probabilistic primality testing of large random odd integers, and the
//! bookkeeping of a throughput benchmark built on it.

pub mod bench;
pub mod bignat;
pub mod jacobi;
pub mod modexp;
pub mod primality;

//! Approximate Shannon entropy support: a verified byte histogram and the
//! selection of its non-zero occurrence counts, the integer half of an
//! entropy estimator over the 256-value byte alphabet.

pub mod histogram;
pub mod laws;

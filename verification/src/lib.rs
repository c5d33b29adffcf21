//! Literal coding for a nibble-oriented, context-mixing compressor.

pub mod bookkeeping;
pub mod byte_laws;
pub mod call_laws;
pub mod context;
pub mod count;
pub mod feed;
pub mod interface;
pub mod laws;
pub mod length_laws;
pub mod literal;
pub mod machine;
pub mod nibble;
pub mod plain;
pub mod prediction_laws;
pub mod priors;
pub mod probability;

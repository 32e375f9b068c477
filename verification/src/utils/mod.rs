pub mod bitarray;
pub mod bloom_filter;
pub mod fingerprint;
pub mod set;
pub mod text;

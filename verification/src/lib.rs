pub mod bits;
pub mod ordered;
pub mod types;
pub mod speculate;
pub mod compact_header;
pub mod circuit;
pub mod speculate_laws;

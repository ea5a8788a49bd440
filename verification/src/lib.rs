//! A PageRank front end: a verified graph store that ingests an edge
//! stream into a reverse adjacency index with out-degree tracking, plus
//! verified decimal token parsing and rendering for vertex identities.
//! The floating-point power iteration itself lives outside this crate.

pub mod digits;
pub mod table;

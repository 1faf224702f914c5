//! A verified front end for the Redcode assembly language used by Core War
//! warriors.  Source text runs through a pipeline of phases: cleaning
//! (comment and metadata extraction), expansion (label and constant
//! resolution) and deserialization (grammar-driven conversion into typed
//! instructions), producing a fully resolved instruction list plus program
//! metadata.

pub mod clean;
pub mod deserialize;
pub mod error;
pub mod expand;
pub mod laws;
pub mod load_file;
pub mod phase;
pub mod text;

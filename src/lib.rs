//! Repeated-substring discovery and indexing, with the record-keeping
//! around gene lookups in the Ensembl and UCSC genome browsers.
pub mod flat_file;
pub mod gene;
pub mod genome_browser;
pub mod html;
pub mod number;
pub mod order;
pub mod seq;
pub mod time;

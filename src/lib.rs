//! Strandedness inference for sequencing libraries: a per-chromosome interval
//! index over a gene model, a read classifier that keys each usable read by
//! how its mapped strand relates to the strands of the genes it overlaps, and
//! a summary of the resulting frequency tables.

pub mod interval;
pub mod strand;
pub mod tree;
pub mod index;
pub mod annotation;
pub mod key;
pub mod table;
pub mod sampler;
pub mod summary;
pub mod params;

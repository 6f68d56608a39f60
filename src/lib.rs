//! A static key-to-value table and several interchangeable lookup
//! structures built from it, each proved to answer exactly as the table does.
pub mod bytes;
pub mod table;
pub mod chains;
pub mod matcher;
pub mod bsearch;
pub mod eytzinger;
pub mod hashed;
pub mod tree;
pub mod perfect;
pub mod strategy;
pub mod samples;
pub mod laws;

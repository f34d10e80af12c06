//! Line-oriented pattern search over a set of text files.
//!
//! A run compiles a pattern ([`matcher`]), picks the regular files among the
//! entries of a directory walk ([`enumerate`]), hands them to its workers one
//! at a time ([`queue`]), splits each file into lines ([`lines`]) and records
//! the leftmost match of every line that has one ([`scan`]), gathers the
//! records ([`aggregate`]) and reports them ([`types`], [`render`],
//! [`order`], [`table`]). [`search`] puts the steps together for a walk whose
//! files are already in memory; [`laws`] states what holds of every run.
//!
//! The library does no input or output and starts no threads: its caller
//! walks the tree, reads the files and prints.

pub mod aggregate;
pub mod enumerate;
pub mod laws;
pub mod lines;
pub mod matcher;
pub mod order;
pub mod patterns;
pub mod queue;
pub mod render;
pub mod scan;
pub mod search;
pub mod table;
pub mod text;
pub mod types;

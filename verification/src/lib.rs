//! Cardinality statistics over a labelled property graph that is stored as
//! a set of delimited files, one file for each kind of vertex and of edge.
//!
//! A run imports the files one after the other and counts, for every vertex
//! label, the vertices of that label, and for every triple of source label,
//! edge label and destination label, the edges of that triple. The empty
//! string is the wildcard: the tables also hold the totals over any label in
//! any place.
//!
//! - [`label`] says what a file holds, by its name.
//! - [`order`] says in which order to import the files.
//! - [`header`] reads the header of a file.
//! - [`import`] takes the rows of a file, one by one or all at once.
//! - [`registry`] keeps the labels of the vertices that edges name by
//!   identifier alone.
//! - [`stats`] keeps the two tables.
//! - [`rollup`] and [`tally`] hold the arithmetic of the tables, [`laws`] what
//!   holds of every run, [`text`] the handling of strings, [`error`] the
//!   failures.
//!
//! Reading files and handing rows from a reader to the import is left to the
//! caller.

pub mod error;
pub mod header;
pub mod import;
pub mod label;
pub mod laws;
pub mod order;
pub mod registry;
pub mod rollup;
pub mod stats;
pub mod tally;
pub mod text;

//! Consolidates the on-disk output of an evolutionary-robotics experiment
//! run into three flat, fixed-schema tables: a wide measure table, a
//! phylogeny-edge table and a snapshot-index table.
//!
//! Everything here is pure computation over values that a thin driver reads
//! from disk: parsing of the loosely-typed legacy inputs, the identifier
//! join across the data sources, and the rendering of the output tables.
//!
//! The loaders live in [`fitness`], [`phylogeny`], [`snapshot`] and
//! [`species`] (the resolved-species occurrence strategy), with the
//! per-individual descriptor reader in [`descriptor`]. The join and the
//! table rendering live in [`emit`], and the guarantees that hold of
//! every successful join are stated and proved in [`laws`].

pub mod descriptor;
pub mod emit;
pub mod error;
pub mod fitness;
pub mod iterators;
pub mod laws;
pub mod measures;
pub mod number;
pub mod phylogeny;
pub mod snapshot;
pub mod species;
pub mod text;
pub mod vector;

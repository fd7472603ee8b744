//! Exact side of a ring-structured bearing estimator: the ring catalog and its
//! lookups, the grid of cells that the posterior search visits and the order it
//! visits them in, the choice of the best cell, and the splitting of position
//! commands into number fields.

pub mod rings;
pub mod grid;
pub mod selection;
pub mod command;

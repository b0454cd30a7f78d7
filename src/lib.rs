//! A stack-graph name-resolution engine: a store of scope and symbol nodes
//! (`graph`), a rule-driven builder that fills it from a syntax tree
//! (`builder`), a stack-machine path resolver (`resolve`) and a DOT exporter
//! (`export`), all with verified contracts.
//!
//! Beside it: size classes and overflow-free arithmetic (`estimate`,
//! `estimate_bounded`, `bounds`, `overflow`, `prefix`), ratings (`rating`),
//! stock kept in a `vector_map::VecMap` (`inventory`), a string-length tool
//! (`tool`) and the decisions of a code-analysis language server (`linter`).

pub mod graph;
pub mod resolve;
pub mod export;
pub mod builder;
pub mod estimate;
pub mod estimate_bounded;
pub mod bounds;
pub mod overflow;
pub mod prefix;
pub mod rating;
pub mod inventory;
pub mod tool;
pub mod linter;

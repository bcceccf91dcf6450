//! Recovers an architecture model from execution traces.
//!
//! Trace records are read through mapping rules into connector instances
//! (`ci`), and connector instances are folded into a model of components and
//! connectors (`conn`). What a list of connector instances determines of its
//! model is defined in `resolution` and `shape`; `laws` states what follows
//! from those definitions. Attribute bags are kept in `values`, component
//! identifiers are made in `ident`, and `render` draws a model as a graph.
//! The remaining modules hold what the commands around the pipeline decide
//! and compute: settings (`config`), records of the database (`model`),
//! dependency readers (`plugin`) and the commands themselves (`cmd`).

pub mod ci;
pub mod cmd;
pub mod config;
pub mod conn;
pub mod ident;
pub mod laws;
pub mod model;
pub mod plugin;
pub mod render;
pub mod resolution;
pub mod shape;
pub mod values;

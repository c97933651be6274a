//! Core of a schema-compiler backend plugin: decodes the wire-encoded
//! compiler request into an addressable schema graph, builds a global node
//! index, traverses the graph from the requested top-level files, and
//! dispatches every visited node to its per-kind emission handler.

pub mod model;
pub mod wire;
pub mod index;
pub mod traverse;
pub mod emit;
pub mod driver;
pub mod backend;


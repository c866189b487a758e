//! A command-line definition library built on an arena-backed directed graph.
//!
//! Subcommands and flags are nodes of a [`graph::Graph`]; an edge leads from a
//! subcommand to each flag and subcommand declared beneath it.
//!
//! - [`graph`] holds the graph itself: handles, records, growth and the
//!   queries for roots, successors and ancestors.
//! - [`model`] says what a graph is, as sequences of payloads and links, and
//!   what the queries name; [`theory`] proves what follows from that.
//! - [`config`] holds the declaration of flags and subcommands, and
//!   [`parser`] lays a declaration out as a graph and follows the words of a
//!   command line through it.
//! - [`text`] holds the few text operations that are taken on trust.

pub mod config;
pub mod graph;
pub mod model;
pub mod parser;
pub mod text;
pub mod theory;

pub use config::{Arg, ArgType, ConfigError, Flag, SubCommand, SubCommandConfig};
pub use graph::{Ancestors, Edge, EdgeIndex, Graph, GraphError, Node, NodeIndex, Successors};
pub use parser::Parser;

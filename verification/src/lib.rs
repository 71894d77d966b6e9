//! Workflows that are written in Rust and run on Argo: from the source of a
//! workflow crate to the templates on the cluster, and what the `cargo athena`
//! commands decide along the way.

pub mod analyze;
pub mod answers;
pub mod api;
pub mod argo_expr;
pub mod ast;
pub mod attrs;
pub mod binsrc;
pub mod body;
pub mod build_laws;
pub mod claims;
pub mod collector;
pub mod command_laws;
pub mod conditional;
pub mod config;
pub mod container;
pub mod container_laws;
pub mod context;
pub mod dataflow;
pub mod delivery;
pub mod distance;
pub mod doctor;
pub mod durations;
pub mod dyn_args;
pub mod emission_laws;
pub mod emulate;
pub mod emulate_laws;
pub mod feedback;
pub mod folds;
pub mod ghost;
pub mod gitinfo;
pub mod graph;
pub mod init;
pub mod json;
pub mod lower;
pub mod ls;
pub mod maps;
pub mod modes;
pub mod munge;
pub mod names;
pub mod node;
pub mod option_laws;
pub mod outside;
pub mod pkg;
pub mod program;
pub mod publish;
pub mod pvc;
pub mod rt;
pub mod run_meta;
pub mod runner;
pub mod scan;
pub mod scope;
pub mod script_laws;
pub mod ser;
pub mod signature;
pub mod sorted;
pub mod submit;
pub mod submit_laws;
pub mod syntax_laws;
pub mod tarball;
pub mod text;
pub mod values;
pub mod wiring;
pub mod workflow;

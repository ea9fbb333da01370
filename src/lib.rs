//! Compiler core for asynchronous state machines: a declaration of named
//! states is normalised into a model, a transition graph is derived from it,
//! and the artifacts (payload types, after-types, handler methods) and the
//! driver's step logic are computed from model and graph.

pub mod graph;
pub mod naming;
pub mod model;
pub mod synth;
pub mod driver;

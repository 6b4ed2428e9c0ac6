//! A small command-chaining runner: command descriptors, the decisions of a
//! fail-fast sequential run, and the derivation of a chained command from the
//! captured output of another.
pub mod command;
pub mod output;
pub mod chain;
pub mod sequence;

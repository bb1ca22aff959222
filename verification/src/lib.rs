//! Turns a behaviour tree written as text into the skeleton of a Solidity test
//! contract: one function per group of actions, one modifier per branching
//! condition.
//!
//! The stages, in the order in which a text passes through them: the
//! scanner cuts it into tokens, the parser builds the tree, the classifier
//! labels its nodes, the builder folds it into the representation of a
//! contract, and the emitter renders that as text.

pub mod builder;
pub mod classifier;
pub mod config;
pub mod emitter;
pub mod error;
pub mod hir;
pub mod laws;
pub mod naming;
pub mod parser;
pub mod scaffold;
pub mod scanner;
pub mod text;

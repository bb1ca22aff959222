//! The settings that steer translation and rendering.

use vstd::prelude::*;
use vstd::string::*;

verus! {

/// The Solidity version written into the header unless another is given.
pub const DEFAULT_SOL_VERSION: &'static str = "0.8.0";

/// The width of one indentation level unless another is given.
pub const DEFAULT_INDENTATION: usize = 2;

/// Settings of one run, handed to every stage that needs them.
#[derive(Debug, Clone)]
pub struct Config {
    /// The version string of the `pragma solidity` line.
    pub solidity_version: String,
    /// The number of spaces of one indentation level.
    pub indent: usize,
    /// Whether every test function ends with the skip statement.
    pub emit_vm_skip: bool,
    /// Whether conditions are never promoted to modifiers.
    pub skip_modifiers: bool,
}

impl Default for Config {
    fn default() -> (cfg: Self)
        ensures
            cfg.solidity_version@ == DEFAULT_SOL_VERSION@,
            cfg.indent == DEFAULT_INDENTATION,
            !cfg.emit_vm_skip,
            !cfg.skip_modifiers,
    {
        Config {
            solidity_version: String::from_str(DEFAULT_SOL_VERSION),
            indent: DEFAULT_INDENTATION,
            emit_vm_skip: false,
            skip_modifiers: false,
        }
    }
}

} // verus!

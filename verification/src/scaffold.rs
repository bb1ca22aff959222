//! From the text of a tree to the text of its Solidity file.

use crate::builder::{translate, translated};
use crate::config::{Config, DEFAULT_INDENTATION, DEFAULT_SOL_VERSION};
use crate::emitter::{root_text, Emitter};
use crate::error::Error;
use vstd::prelude::*;
use vstd::string::*;

verus! {

/// The Solidity text that a tree is scaffolded to, or why it cannot be: the
/// tree is translated and the file that comes out is rendered.
pub open spec fn scaffolded(
    text: Seq<char>,
    version: Seq<char>,
    indent: nat,
    emit_vm_skip: bool,
    skip_modifiers: bool,
) -> Result<Seq<char>, Error> {
    match translated(text, emit_vm_skip, skip_modifiers) {
        Ok(root) => Ok(root_text(indent, version, root)),
        Err(e) => Err(e),
    }
}

/// Scaffolds the Solidity file of the tree in `text`. The result is a
/// function of the text and the configuration alone: the same input gives
/// the same output, character for character.
pub fn scaffold(text: &str, cfg: &Config) -> (result: Result<String, Error>)
    ensures
        match result {
            Ok(emitted) => scaffolded(
                text@,
                cfg.solidity_version@,
                cfg.indent as nat,
                cfg.emit_vm_skip,
                cfg.skip_modifiers,
            ) == Ok::<Seq<char>, Error>(emitted@),
            Err(e) => scaffolded(
                text@,
                cfg.solidity_version@,
                cfg.indent as nat,
                cfg.emit_vm_skip,
                cfg.skip_modifiers,
            ) == Err::<Seq<char>, Error>(e),
        },
{
    match translate(text, cfg) {
        Ok(hir) => Ok(Emitter::new(cfg).emit(&hir)),
        Err(e) => Err(e),
    }
}

/// The options of a scaffolding run.
#[derive(Debug, Clone)]
pub struct Scaffold {
    /// The tree files to generate from, as paths or patterns.
    pub files: Vec<String>,
    /// Whether the output goes to files instead of the standard output.
    pub write_files: bool,
    /// Whether an output file that exists already is overwritten.
    pub force_write: bool,
    /// The Solidity version of the generated contracts.
    pub solidity_version: String,
    /// Whether every test function ends with `vm.skip(true);`.
    pub with_vm_skip: bool,
    /// Whether no modifier is emitted and every condition folds into names.
    pub skip_modifiers: bool,
}

impl Default for Scaffold {
    fn default() -> (options: Self)
        ensures
            options.files@.len() == 0,
            !options.write_files,
            !options.force_write,
            options.solidity_version@ == DEFAULT_SOL_VERSION@,
            !options.with_vm_skip,
            !options.skip_modifiers,
    {
        Scaffold {
            files: Vec::new(),
            write_files: false,
            force_write: false,
            solidity_version: String::from_str(DEFAULT_SOL_VERSION),
            with_vm_skip: false,
            skip_modifiers: false,
        }
    }
}

/// What becomes of the text scaffolded for one file.
#[derive(Debug, Clone, Copy, PartialEq, Eq)]
pub enum FileAction {
    /// It is printed.
    Print,
    /// It is written to the output file.
    Write,
    /// It is dropped: the output file exists and may not be overwritten.
    Skip,
}

/// The text to use for one file, and the warning to show with it, if any.
#[derive(Debug, Clone, PartialEq, Eq)]
pub struct Rendered {
    pub text: String,
    pub warning: Option<String>,
}

impl Scaffold {
    /// The configuration that the options stand for.
    pub fn config(&self) -> (cfg: Config)
        ensures
            cfg.solidity_version@ == self.solidity_version@,
            cfg.indent == DEFAULT_INDENTATION,
            cfg.emit_vm_skip == self.with_vm_skip,
            cfg.skip_modifiers == self.skip_modifiers,
    {
        Config {
            solidity_version: self.solidity_version.clone(),
            indent: DEFAULT_INDENTATION,
            emit_vm_skip: self.with_vm_skip,
            skip_modifiers: self.skip_modifiers,
        }
    }

    /// Scaffolds the text of one tree file under these options.
    pub fn process(&self, text: &str) -> (result: Result<String, Error>)
        ensures
            match result {
                Ok(emitted) => scaffolded(
                    text@,
                    self.solidity_version@,
                    DEFAULT_INDENTATION as nat,
                    self.with_vm_skip,
                    self.skip_modifiers,
                ) == Ok::<Seq<char>, Error>(emitted@),
                Err(e) => scaffolded(
                    text@,
                    self.solidity_version@,
                    DEFAULT_INDENTATION as nat,
                    self.with_vm_skip,
                    self.skip_modifiers,
                ) == Err::<Seq<char>, Error>(e),
            },
    {
        let cfg = self.config();
        scaffold(text, &cfg)
    }

    /// Settles on the text for one file once the formatter has run: the
    /// formatted text where formatting worked; else the text as it was
    /// emitted, with the formatter's complaint as a warning.
    pub fn settle(emitted: String, formatted: Result<String, String>) -> (rendered: Rendered)
        ensures
            match formatted {
                Ok(text) => rendered.text@ == text@ && rendered.warning.is_none(),
                Err(complaint) => rendered.text@ == emitted@ && rendered.warning == Some(
                    complaint,
                ),
            },
    {
        match formatted {
            Ok(text) => Rendered { text, warning: None },
            Err(complaint) => Rendered { text: emitted, warning: Some(complaint) },
        }
    }

    /// What to do with the text for one file, `exists` telling whether its
    /// output file is there already: print it unless files are to be
    /// written; never overwrite a file unless that is forced.
    pub fn file_action(&self, exists: bool) -> (action: FileAction)
        ensures
            action == if !self.write_files {
                FileAction::Print
            } else if exists && !self.force_write {
                FileAction::Skip
            } else {
                FileAction::Write
            },
    {
        if !self.write_files {
            FileAction::Print
        } else if exists && !self.force_write {
            FileAction::Skip
        } else {
            FileAction::Write
        }
    }

    /// The status that a run ends with: 0 where every file was scaffolded,
    /// 1 where any failed.
    pub fn exit_status(failures: usize) -> (status: i32)
        ensures
            status == if failures == 0 {
                0i32
            } else {
                1i32
            },
    {
        if failures == 0 {
            0
        } else {
            1
        }
    }
}

} // verus!

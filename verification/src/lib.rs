//! The verified core of a documentation generator.
//!
//! The generator walks a project tree, gathers the text of its documents and
//! source files, sets them into an instruction for a text-generation model,
//! runs the model as an outside process, cleans up what it returns and writes
//! the result to a file. This crate holds every decision of that pipeline,
//! with its contract; reading the file system, starting the process and
//! writing the document are left to the caller.
//!
//! - [`pipeline`] is the orchestrator: one run, as a machine that asks its
//!   caller for one listing, one file, one process or one write at a time.
//!   [`generation`] states what a whole run produces and proves that the
//!   machine produces it.
//! - [`collector`] is the walk over the tree, as such a machine of its own;
//!   [`filter`] decides which entries it takes, and [`traversal`] states and
//!   proves what a walk over a whole tree collects.
//! - [`file_map`] is the mapping from relative path to content that the walk
//!   fills.
//! - [`prompt`] builds the instruction for the kind of document asked for.
//! - [`invocation`] says how the inference process is invoked and what a run
//!   makes of the way it ended; [`sanitize`] cleans up its output.
//! - [`progress`] renders the progress indicator.
//! - [`error`] lists the ways in which a run can fail, and [`text`] holds the
//!   conversions and the order on text that the other modules share.
//!
//! Three things are taken from outside and named rather than defined: the
//! lower-case form of an extension, the JSON text of the collected files, and
//! what the pattern engine makes of the pattern of a reasoning block.

pub mod collector;
pub mod error;
pub mod file_map;
pub mod filter;
pub mod generation;
pub mod invocation;
pub mod pipeline;
pub mod progress;
pub mod prompt;
pub mod sanitize;
pub mod text;
pub mod traversal;

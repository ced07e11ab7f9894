//! Recursive content search: given a root path and a query, report the path
//! of every file under the root whose text contains the query.
//!
//! The library holds the decisions of the search and the proofs of what it
//! reports. The work on the file system and the threads that do it belong
//! to whoever drives the tasks.
//!
//! - [`text`]: what it means for one text to stand in another, and the
//!   search for it.
//! - [`failure`]: what is read of a failed operation, and the verdict on it:
//!   retry, skip, or report.
//! - [`diagnostic`]: what a search logs, and the line each entry is printed
//!   as.
//! - [`config`]: the request that a command line makes.
//! - [`task`]: the task of one node, as a machine that takes events and asks
//!   for actions.
//! - [`protocol`]: what holds of every run of a task.
//! - [`snapshot`]: a tree held in memory, and the walk over it that drives
//!   one task per node.
//! - [`reach`]: the files that a walk reaches, and the proofs that a search
//!   reports those that hold the query, each once and nothing else.
//! - [`program`]: a whole run on a tree held in memory, from the command
//!   line to the exit status.

pub mod config;
pub mod diagnostic;
pub mod failure;
pub mod program;
pub mod protocol;
pub mod reach;
pub mod snapshot;
pub mod task;
pub mod text;

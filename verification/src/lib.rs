//! Per-domain CPU frequency controller.
//!
//! Each frequency-scaling domain (a group of cores sharing one clock) is
//! represented by a [`domain::Info`] built from the contents of its control
//! directory.  The controller clamps requested frequencies into the domain's
//! supported range, decides which floor/ceiling control files must be written
//! and in what order, tracks the governor's intent even when writes are
//! bypassed, and periodically checks that the hardware honours the requested
//! frequency.  All file reads and writes happen outside this crate: callers
//! hand in file contents and carry out the returned write commands.

pub mod cpuset;
pub mod domain;
pub mod parse;
pub mod table;

//! Sort the files of a directory into one subdirectory per calendar day of
//! their last modification, named `YYYY-MM-DD`.
//!
//! The library decides; the program around it reads the directory and
//! performs what was decided.
use vstd::prelude::*;

pub mod calendar;
pub mod clock;
pub mod error;
pub mod plan;

verus! {

} // verus!

//! Shows how much memory the processes with a given name use.
//!
//! The library takes a snapshot of processes as plain records, selects those
//! whose name contains a filter (ordered by where the filter first occurs),
//! renders their memory in decimal or binary units, and lays the result out
//! as a box-drawn table. Reading the process table is left to the caller.
use vstd::prelude::*;

pub mod args;
pub mod matching;
pub mod table;
pub mod text;
pub mod units;

verus! {

} // verus!

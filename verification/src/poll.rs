//! Outcomes of polling work that may not be done yet.

use vstd::prelude::*;

verus! {

/// What polling an operation gave: its value, or nothing yet.
#[derive(Debug, PartialEq, Eq)]
pub enum Poll<T> {
    Ready(T),
    Pending,
}

} // verus!

//! How the front end presents an algorithm's work.

use vstd::prelude::*;

verus! {

/// The presentation the front end uses for a run: animate each step in
/// place, print every step on its own line, or print only the final string.
#[derive(Debug, Clone)]
pub enum DisplayMethod {
    Evolutive,
    AllSteps,
    FinalResult,
}

} // verus!

//! What the evaluator is configured with.
use vstd::prelude::*;

verus! {

/// The settings of an evaluation.
#[derive(Debug, Clone, Copy, PartialEq, Eq)]
pub struct Config {
    /// Whether `^` is computed by the high-precision routine for real
    /// exponents rather than by repeated multiplication.
    pub high_accuracy: bool,
}

impl Default for Config {
    /// The settings used where none are given: no high accuracy.
    fn default() -> (config: Config)
        ensures
            !config.high_accuracy,
    {
        Config { high_accuracy: false }
    }
}

} // verus!

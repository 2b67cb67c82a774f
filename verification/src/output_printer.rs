//! The message-mode switches that decide which messages a run prints, and
//! the error collection carried along with them.  The printing itself is
//! presentation and belongs to the surrounding application.

use vstd::prelude::*;

verus! {

use crate::error_collector::ErrorCollector;

/// Decides, by its two switches, whether verbose and debug messages are
/// shown, and carries the errors collected while the program runs.
#[derive(Debug, Clone)]
pub struct PrintMode {
    pub verbose: bool,
    pub debug: bool,
    pub err_col: ErrorCollector,
}

impl PrintMode {
    /// Initializes a `PrintMode` with default settings: both switches off
    /// and no collected errors.
    pub fn norm() -> (pm: PrintMode)
        ensures
            !pm.verbose,
            !pm.debug,
            pm.err_col.collection@ == Seq::<String>::empty(),
    {
        PrintMode { verbose: false, debug: false, err_col: ErrorCollector::init() }
    }
}

} // verus!

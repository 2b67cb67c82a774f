//! A container that gathers error messages as they occur, so that they can
//! all be shown when the program is about to end.

use vstd::prelude::*;

verus! {

/// A collection of errors.
#[derive(Debug, Clone)]
pub struct ErrorCollector {
    pub collection: Vec<String>,
}

impl ErrorCollector {
    /// Initializes a new collector with an empty collection.
    pub fn init() -> (c: ErrorCollector)
        ensures
            c.collection@ == Seq::<String>::empty(),
    {
        ErrorCollector { collection: Vec::new() }
    }

    /// Adds a message to the collection.
    pub fn add(&mut self, msg: String)
        ensures
            final(self).collection@ == old(self).collection@.push(msg),
    {
        self.collection.push(msg)
    }
}

} // verus!

//! The top-level handle that owns one view's processing pipeline. The
//! asynchronous wiring of change feeds and the dataflow loop live outside
//! the library; the coordinator itself carries no state of its own.

use vstd::prelude::*;

verus! {

/// The owner of one materialized view's processing pipeline.
#[derive(Debug)]
pub struct Coordinator {}

impl Coordinator {
    /// Builds a coordinator.
    pub fn new() -> (r: Self) {
        Coordinator {  }
    }
}

} // verus!

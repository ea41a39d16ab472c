//! Facade API for the report engine.
use vstd::prelude::*;

verus! {

pub struct ReportEngine;

impl ReportEngine {
    pub fn new() -> (r: Self) {
        ReportEngine
    }
}

impl Default for ReportEngine {
    fn default() -> (r: Self) {
        Self::new()
    }
}

} // verus!

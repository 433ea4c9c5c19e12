//! Result screen values.

use vstd::prelude::*;

use crate::domain::dependency::FlowVia;

verus! {

/// The next file of the flow, offered after a file is finished.
#[derive(Debug, Clone)]
pub struct NextStep {
    pub index: usize,
    pub total: usize,
    pub path: String,
    pub via: Option<FlowVia>,
}

} // verus!

//! Payloads of some of the fact kinds that the ledger stores.
use vstd::prelude::*;

verus! {

/// A plan was scheduled for download into a slot.
#[derive(Clone, Debug, PartialEq, Eq)]
pub struct PlanScheduledForDownload {
    pub timestamp: String,
    pub plan_id: String,
    pub slot: String,
    pub scheduled_at: String,
    pub reason: String,
}

/// An asset was created for a plan.
#[derive(Clone, Debug, PartialEq, Eq)]
pub struct AssetCreated {
    pub timestamp: String,
    pub asset_id: String,
    pub plan_id: String,
    pub source_url: String,
}

/// An asset was added to the play queue.
#[derive(Clone, Debug, PartialEq, Eq)]
pub struct QueueItemAdded {
    pub timestamp: String,
    pub queue_id: String,
    pub asset_id: String,
    pub slot: String,
    pub position: u32,
}

/// The language-model action behind a curator decision.
#[derive(Clone, Debug, PartialEq, Eq)]
pub struct LLMAction {
    pub provider: String,
    pub model: String,
    pub reason: String,
}

} // verus!

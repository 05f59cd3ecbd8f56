//! What the interface knows of a sub-agent.

use vstd::prelude::*;

verus! {

/// The lifecycle status of a sub-agent.
#[derive(Debug, Clone, Copy, PartialEq, Eq, Structural)]
pub enum SubAgentStatus {
    Running,
    Done,
    Failed,
}

/// One sub-agent as shown in the interface.
#[derive(Debug, Clone)]
pub struct SubAgentView {
    pub id: String,
    pub name: String,
    pub status: SubAgentStatus,
    pub turns: usize,
    pub tokens: u64,
    /// The agent's live feed, one line per entry.
    pub feed: Vec<String>,
}

/// One-shot onboarding hints.
#[derive(Debug, Clone, Copy, Default)]
pub struct OnboardingState {
    /// When the first-ever sub-agent spawn was seen (monotonic
    /// milliseconds); drives the expanded strip hint.
    pub first_spawn_seen: Option<u64>,
}

} // verus!

//! What the engine knows of the events that the framework emits.

use vstd::prelude::*;

verus! {

/// The type of the event that the governance module emits when a proposal
/// is created.
pub open spec fn create_proposal_type() -> Seq<char> {
    "0x1::aptos_governance::CreateProposal"@
}

/// The type that this event had before events were given modules of their
/// own.
pub open spec fn create_proposal_event_type() -> Seq<char> {
    "0x1::aptos_governance::CreateProposalEvent"@
}

/// Whether the two strings hold the same characters.
fn same_str(a: &str, b: &str) -> (same: bool)
    ensures
        same == (a@ == b@),
{
    let x = a.to_owned();
    let y = b.to_owned();
    x == y
}

/// Whether an event of this type says that a governance proposal was
/// created.
pub fn is_aptos_governance_create_proposal_event(event_type: &str) -> (is: bool)
    ensures
        is == (event_type@ == create_proposal_type() || event_type@
            == create_proposal_event_type()),
{
    same_str(event_type, "0x1::aptos_governance::CreateProposal") || same_str(
        event_type,
        "0x1::aptos_governance::CreateProposalEvent",
    )
}

} // verus!

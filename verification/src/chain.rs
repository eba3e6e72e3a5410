//! The decoded block payload: every on-chain event the pipeline reads.
//!
//! One block delivers the events below as plain values; preprocessing
//! turns them into the typed bundle the handlers consume.

use vstd::prelude::*;

verus! {

/// A space creation event.
#[derive(Clone, Debug)]
pub struct GeoSpaceCreated {
    pub dao_address: String,
    pub space_address: String,
}

/// A governance plugin attached to a DAO.
#[derive(Clone, Debug)]
pub struct GeoGovernancePluginCreated {
    pub dao_address: String,
    pub main_voting_address: String,
    pub member_access_address: String,
}

/// A personal-admin plugin attached to a DAO.
#[derive(Clone, Debug)]
pub struct GeoPersonalSpaceAdminPluginCreated {
    pub dao_address: String,
    pub personal_admin_address: String,
}

/// An editor added to a DAO's space.
#[derive(Clone, Debug)]
pub struct EditorAdded {
    pub dao_address: String,
    pub editor_address: String,
    pub main_voting_plugin_address: String,
    pub change_type: String,
}

/// A member added to a DAO's space.
#[derive(Clone, Debug)]
pub struct MemberAdded {
    pub dao_address: String,
    pub member_address: String,
    pub main_voting_plugin_address: String,
    pub change_type: String,
}

/// An editor removed from a DAO's space.
#[derive(Clone, Debug)]
pub struct EditorRemoved {
    pub dao_address: String,
    pub editor_address: String,
    pub plugin_address: String,
    pub change_type: String,
}

/// A member removed from a DAO's space.
#[derive(Clone, Debug)]
pub struct MemberRemoved {
    pub dao_address: String,
    pub member_address: String,
    pub plugin_address: String,
    pub change_type: String,
}

/// A subspace added under a DAO's space.
#[derive(Clone, Debug)]
pub struct SubspaceAdded {
    pub dao_address: String,
    pub subspace: String,
    pub plugin_address: String,
    pub change_type: String,
}

/// A subspace removed from under a DAO's space.
#[derive(Clone, Debug)]
pub struct SubspaceRemoved {
    pub dao_address: String,
    pub subspace: String,
    pub plugin_address: String,
    pub change_type: String,
}

/// An edit published to a space, naming the content URI to resolve.
#[derive(Clone, Debug)]
pub struct EditPublished {
    pub content_uri: String,
    pub plugin_address: String,
    pub dao_address: String,
}

/// A publish-edit proposal, naming the content URI of the proposed
/// edit.
#[derive(Clone, Debug)]
pub struct PublishEditProposalCreated {
    pub proposal_id: String,
    pub creator: String,
    pub start_time: String,
    pub end_time: String,
    pub content_uri: String,
    pub dao_address: String,
    pub plugin_address: String,
}

/// An add-member proposal.
#[derive(Clone, Debug)]
pub struct AddMemberProposalCreated {
    pub proposal_id: String,
    pub creator: String,
    pub start_time: String,
    pub end_time: String,
    pub member: String,
    pub dao_address: String,
    pub plugin_address: String,
    pub change_type: String,
}

/// A remove-member proposal.
#[derive(Clone, Debug)]
pub struct RemoveMemberProposalCreated {
    pub proposal_id: String,
    pub creator: String,
    pub start_time: String,
    pub end_time: String,
    pub member: String,
    pub dao_address: String,
    pub plugin_address: String,
    pub change_type: String,
}

/// An add-editor proposal.
#[derive(Clone, Debug)]
pub struct AddEditorProposalCreated {
    pub proposal_id: String,
    pub creator: String,
    pub start_time: String,
    pub end_time: String,
    pub editor: String,
    pub dao_address: String,
    pub plugin_address: String,
    pub change_type: String,
}

/// A remove-editor proposal.
#[derive(Clone, Debug)]
pub struct RemoveEditorProposalCreated {
    pub proposal_id: String,
    pub creator: String,
    pub start_time: String,
    pub end_time: String,
    pub editor: String,
    pub dao_address: String,
    pub plugin_address: String,
    pub change_type: String,
}

/// An add-subspace proposal.
#[derive(Clone, Debug)]
pub struct AddSubspaceProposalCreated {
    pub proposal_id: String,
    pub creator: String,
    pub start_time: String,
    pub end_time: String,
    pub subspace: String,
    pub dao_address: String,
    pub plugin_address: String,
    pub change_type: String,
}

/// A remove-subspace proposal.
#[derive(Clone, Debug)]
pub struct RemoveSubspaceProposalCreated {
    pub proposal_id: String,
    pub creator: String,
    pub start_time: String,
    pub end_time: String,
    pub subspace: String,
    pub dao_address: String,
    pub plugin_address: String,
    pub change_type: String,
}

/// An executed proposal event.
#[derive(Clone, Debug)]
pub struct ProposalExecuted {
    pub proposal_id: String,
    pub plugin_address: String,
}

/// Everything one block carries.
#[derive(Clone, Debug)]
pub struct GeoOutput {
    pub edits_published: Vec<EditPublished>,
    pub edits: Vec<PublishEditProposalCreated>,
    pub spaces_created: Vec<GeoSpaceCreated>,
    pub governance_plugins_created: Vec<GeoGovernancePluginCreated>,
    pub personal_plugins_created: Vec<GeoPersonalSpaceAdminPluginCreated>,
    pub editors_added: Vec<EditorAdded>,
    pub editors_removed: Vec<EditorRemoved>,
    pub members_added: Vec<MemberAdded>,
    pub members_removed: Vec<MemberRemoved>,
    pub subspaces_added: Vec<SubspaceAdded>,
    pub subspaces_removed: Vec<SubspaceRemoved>,
    pub executed_proposals: Vec<ProposalExecuted>,
    pub proposed_added_members: Vec<AddMemberProposalCreated>,
    pub proposed_removed_members: Vec<RemoveMemberProposalCreated>,
    pub proposed_added_editors: Vec<AddEditorProposalCreated>,
    pub proposed_removed_editors: Vec<RemoveEditorProposalCreated>,
    pub proposed_added_subspaces: Vec<AddSubspaceProposalCreated>,
    pub proposed_removed_subspaces: Vec<RemoveSubspaceProposalCreated>,
}

impl GeoOutput {
    /// A block with no events.
    pub fn empty() -> (r: GeoOutput)
        ensures
            r.edits_published@.len() == 0,
            r.edits@.len() == 0,
            r.spaces_created@.len() == 0,
            r.governance_plugins_created@.len() == 0,
            r.personal_plugins_created@.len() == 0,
            r.editors_added@.len() == 0,
            r.editors_removed@.len() == 0,
            r.members_added@.len() == 0,
            r.members_removed@.len() == 0,
            r.subspaces_added@.len() == 0,
            r.subspaces_removed@.len() == 0,
            r.executed_proposals@.len() == 0,
            r.proposed_added_members@.len() == 0,
            r.proposed_removed_members@.len() == 0,
            r.proposed_added_editors@.len() == 0,
            r.proposed_removed_editors@.len() == 0,
            r.proposed_added_subspaces@.len() == 0,
            r.proposed_removed_subspaces@.len() == 0,
    {
        GeoOutput {
            edits_published: Vec::new(),
            edits: Vec::new(),
            spaces_created: Vec::new(),
            governance_plugins_created: Vec::new(),
            personal_plugins_created: Vec::new(),
            editors_added: Vec::new(),
            editors_removed: Vec::new(),
            members_added: Vec::new(),
            members_removed: Vec::new(),
            subspaces_added: Vec::new(),
            subspaces_removed: Vec::new(),
            executed_proposals: Vec::new(),
            proposed_added_members: Vec::new(),
            proposed_removed_members: Vec::new(),
            proposed_added_editors: Vec::new(),
            proposed_removed_editors: Vec::new(),
            proposed_added_subspaces: Vec::new(),
            proposed_removed_subspaces: Vec::new(),
        }
    }
}

} // verus!

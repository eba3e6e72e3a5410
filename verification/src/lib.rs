//! Verified core of a knowledge-graph block-indexing pipeline.
//!
//! The library models the data that flows from a block stream into a
//! relational store: spaces, properties, entities, values, relations,
//! memberships, subspaces and proposals. Every transformation from a
//! decoded block to storage mutations is implemented and verified here;
//! network and database plumbing stay outside the library.

pub mod edit;
pub mod entities;
pub mod relations;
pub mod ids;
pub mod laws;
pub mod chain;
pub mod codec;
pub mod handlers;
pub mod preprocess;
pub mod proposals;
pub mod resolver;
pub mod storage;
pub mod test_utils;
pub mod properties;
pub mod values;
pub mod uid;
pub mod wire;

use vstd::prelude::*;

verus! {

/// Position of a block in the chain together with the stream cursor
/// that produced it.
#[derive(Clone, Debug)]
pub struct BlockMetadata {
    pub cursor: String,
    pub block_number: u64,
    pub timestamp: String,
}

/// A created space whose DAO carries a personal-admin plugin.
#[derive(Clone, Debug)]
pub struct PersonalSpace {
    pub dao_address: String,
    pub space_address: String,
    pub personal_plugin: String,
}

/// A created space whose DAO carries a governance plugin.
#[derive(Clone, Debug)]
pub struct PublicSpace {
    pub dao_address: String,
    pub space_address: String,
    pub membership_plugin: String,
    pub governance_plugin: String,
}

/// A created space, matched with the plugin kind that decides its
/// variant.
#[derive(Clone, Debug)]
pub enum CreatedSpace {
    Personal(PersonalSpace),
    Public(PublicSpace),
}

/// A member (or editor) added to the space of a DAO.
#[derive(Clone, Debug)]
pub struct AddedMember {
    pub dao_address: String,
    pub editor_address: String,
}

/// A member (or editor) removed from the space of a DAO.
#[derive(Clone, Debug)]
pub struct RemovedMember {
    pub dao_address: String,
    pub editor_address: String,
}

/// A subspace edge added under the space of a DAO.
#[derive(Clone, Debug)]
pub struct AddedSubspace {
    pub dao_address: String,
    pub subspace_address: String,
}

/// A subspace edge removed from under the space of a DAO.
#[derive(Clone, Debug)]
pub struct RemovedSubspace {
    pub dao_address: String,
    pub subspace_address: String,
}

/// An on-chain proposal reported executed.
#[derive(Clone, Debug)]
pub struct ExecutedProposal {
    pub proposal_id: String,
    pub plugin_address: String,
}

/// A created proposal, one variant per proposal type. For `PublishEdit`
/// the correlated edit id rides along; for every other type the id
/// derived from `(dao, proposal_id, plugin)` does.
#[derive(Clone, Debug)]
pub enum ProposalCreated {
    PublishEdit {
        proposal_id: String,
        creator: String,
        start_time: String,
        end_time: String,
        content_uri: String,
        dao_address: String,
        plugin_address: String,
        edit_id: Option<crate::uid::Uid>,
    },
    AddMember {
        id: crate::uid::Uid,
        proposal_id: String,
        creator: String,
        start_time: String,
        end_time: String,
        member: String,
        dao_address: String,
        plugin_address: String,
        change_type: String,
    },
    RemoveMember {
        id: crate::uid::Uid,
        proposal_id: String,
        creator: String,
        start_time: String,
        end_time: String,
        member: String,
        dao_address: String,
        plugin_address: String,
        change_type: String,
    },
    AddEditor {
        id: crate::uid::Uid,
        proposal_id: String,
        creator: String,
        start_time: String,
        end_time: String,
        editor: String,
        dao_address: String,
        plugin_address: String,
        change_type: String,
    },
    RemoveEditor {
        id: crate::uid::Uid,
        proposal_id: String,
        creator: String,
        start_time: String,
        end_time: String,
        editor: String,
        dao_address: String,
        plugin_address: String,
        change_type: String,
    },
    AddSubspace {
        id: crate::uid::Uid,
        proposal_id: String,
        creator: String,
        start_time: String,
        end_time: String,
        subspace: String,
        dao_address: String,
        plugin_address: String,
        change_type: String,
    },
    RemoveSubspace {
        id: crate::uid::Uid,
        proposal_id: String,
        creator: String,
        start_time: String,
        end_time: String,
        subspace: String,
        dao_address: String,
        plugin_address: String,
        change_type: String,
    },
}

/// Everything one block asks the handlers to apply.
#[derive(Debug)]
pub struct KgData {
    pub block: BlockMetadata,
    pub edits: Vec<crate::edit::PreprocessedEdit>,
    pub added_editors: Vec<AddedMember>,
    pub removed_editors: Vec<RemovedMember>,
    pub added_members: Vec<AddedMember>,
    pub removed_members: Vec<RemovedMember>,
    pub added_subspaces: Vec<AddedSubspace>,
    pub removed_subspaces: Vec<RemovedSubspace>,
    pub spaces: Vec<CreatedSpace>,
    pub executed_proposals: Vec<ExecutedProposal>,
    pub created_proposals: Vec<ProposalCreated>,
}

} // verus!

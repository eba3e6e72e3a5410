//! The per-block handlers: spaces, edits, membership, subspaces and
//! proposals.
//!
//! Each handler applies its slice of a preprocessed block to storage.
//! The tables the handlers touch are disjoint, so the block's result is
//! the same in any handler order; edits are applied one at a time, in
//! order, to keep the intra-edit squash semantics.

use vstd::prelude::*;
use crate::edit::{Edit, PreprocessedEdit, rc_borrow};
use crate::entities::{EntitiesModel, EntityItem, mentioned_entities};
use crate::ids::{checksum_address, checksum_chars, derive_space_id, geo_network, spec_space_id};
use crate::properties::{
    created_properties, PropertiesCache, PropertiesModel, PropertyItem, squash_properties,
};
use crate::proposals::{proposal_item_matches, ProposalItem, ProposalsModel, ProposalStatus, executed_ids};
use crate::relations::{
    rel_creates, rel_deletes, rel_item_matches, rel_unset_matches, rel_update_matches, rel_updates,
    RelationItem, RelationsModel, RelationUnsetItem, RelationUpdateItem,
};
use crate::storage::{
    add_edge, add_pair, insert_new_only, insert_spaces_seq, MembershipRow, remove_pair,
    remove_edge, remove_relations, remove_values, set_proposal_status, SpaceRow, SpaceType,
    Storage, StorageModel, SubspaceRow, touch_entities, unset_relations_seq, update_relations_seq,
    upsert_all,
};
use crate::uid::Uid;
use crate::values::{filter_populated, set_op_matches, set_sources, unset_op_matches, unset_sources, ValueOp, ValuesModel, cache_dt};
use crate::{
    AddedMember, AddedSubspace, BlockMetadata, CreatedSpace, ExecutedProposal, KgData,
    ProposalCreated, RemovedMember, RemovedSubspace,
};

verus! {

/// How a space row mirrors a created space: the id derived from the
/// network and DAO, every address checksummed, and the variant's plugin
/// columns filled.
pub open spec fn space_row_matches(cs: CreatedSpace, row: SpaceRow) -> bool {
    match cs {
        CreatedSpace::Public(p) => {
            &&& row.id == spec_space_id("geo"@, p.dao_address@)
            &&& row.dao_address@ == checksum_chars(p.dao_address@)
            &&& row.space_type == SpaceType::Public
            &&& row.space_address@ == checksum_chars(p.space_address@)
            &&& crate::values::opt_text(row.main_voting_address) == Some(
                checksum_chars(p.governance_plugin@),
            )
            &&& crate::values::opt_text(row.membership_address) == Some(
                checksum_chars(p.membership_plugin@),
            )
            &&& row.personal_address is None
        },
        CreatedSpace::Personal(p) => {
            &&& row.id == spec_space_id("geo"@, p.dao_address@)
            &&& row.dao_address@ == checksum_chars(p.dao_address@)
            &&& row.space_type == SpaceType::Personal
            &&& row.space_address@ == checksum_chars(p.space_address@)
            &&& row.main_voting_address is None
            &&& row.membership_address is None
            &&& crate::values::opt_text(row.personal_address) == Some(
                checksum_chars(p.personal_plugin@),
            )
        },
    }
}

/// Space rows mirror created spaces, one to one, in order.
pub open spec fn space_rows_match(spaces: Seq<CreatedSpace>, rows: Seq<SpaceRow>) -> bool {
    rows.len() == spaces.len() && forall|k: int|
        0 <= k < rows.len() ==> space_row_matches(spaces[k], #[trigger] rows[k])
}

/// Storage after the block's created spaces: some row batch mirroring
/// the created spaces, folded in variant-aware; nothing else changes.
pub open spec fn spaces_applied(pre: StorageModel, spaces: Seq<CreatedSpace>, post: StorageModel) -> bool {
    exists|rows: Seq<SpaceRow>|
        #[trigger] space_rows_match(spaces, rows) && post == (StorageModel {
            spaces: insert_spaces_seq(pre.spaces, rows),
            ..pre
        })
}

pub struct SpaceHandler;

impl SpaceHandler {
    /// One space row per created space.
    pub fn map_created_spaces(spaces: &Vec<CreatedSpace>) -> (r: Vec<SpaceRow>)
        ensures
            space_rows_match(spaces@, r@),
    {
        let mut out: Vec<SpaceRow> = Vec::new();
        let mut i: usize = 0;
        while i < spaces.len()
            invariant
                i <= spaces@.len(),
                out@.len() == i,
                forall|k: int| 0 <= k < i ==> space_row_matches(spaces@[k], #[trigger] out@[k]),
            decreases spaces@.len() - i,
        {
            let row = match &spaces[i] {
                CreatedSpace::Public(p) => SpaceRow {
                    id: derive_space_id(geo_network(), p.dao_address.as_str()),
                    dao_address: checksum_address(p.dao_address.as_str()),
                    space_type: SpaceType::Public,
                    space_address: checksum_address(p.space_address.as_str()),
                    main_voting_address: Some(checksum_address(p.governance_plugin.as_str())),
                    membership_address: Some(checksum_address(p.membership_plugin.as_str())),
                    personal_address: None,
                },
                CreatedSpace::Personal(p) => SpaceRow {
                    id: derive_space_id(geo_network(), p.dao_address.as_str()),
                    dao_address: checksum_address(p.dao_address.as_str()),
                    space_type: SpaceType::Personal,
                    space_address: checksum_address(p.space_address.as_str()),
                    main_voting_address: None,
                    membership_address: None,
                    personal_address: Some(checksum_address(p.personal_plugin.as_str())),
                },
            };
            out.push(row);
            i = i + 1;
        }
        out
    }

    /// Apply the block's created spaces: derive each row and fold it in
    /// idempotently, governance winning over personal for the same id.
    pub fn run(spaces: &Vec<CreatedSpace>, _block: &BlockMetadata, storage: &mut Storage)
        requires
            old(storage).wf(),
        ensures
            final(storage).wf(),
            spaces_applied(old(storage)@, spaces@, final(storage)@),
    {
        let rows = Self::map_created_spaces(spaces);
        let ghost rows_g = rows@;
        storage.insert_spaces(rows);
        proof {
            assert(space_rows_match(spaces@, rows_g) && final(storage)@ == (StorageModel {
                spaces: insert_spaces_seq(old(storage)@.spaces, rows_g),
                ..old(storage)@
            }));
        }
    }
}

/// How a membership row mirrors an added or removed member: the space
/// id derived from the DAO and the checksummed address.
pub open spec fn member_row_matches(dao: Seq<char>, address: Seq<char>, row: MembershipRow) -> bool {
    row.space_id == spec_space_id("geo"@, dao) && row.address@ == checksum_chars(address)
}

/// Membership rows folded in, each idempotently, in order.
pub open spec fn add_pairs_all(pre: Seq<MembershipRow>, rows: Seq<MembershipRow>) -> Seq<
    MembershipRow,
>
    decreases rows.len(),
{
    if rows.len() == 0 {
        pre
    } else {
        add_pair(add_pairs_all(pre, rows.drop_last()), rows.last())
    }
}

/// Membership rows removed, each idempotently, in order.
pub open spec fn remove_pairs_all(pre: Seq<MembershipRow>, rows: Seq<MembershipRow>) -> Seq<
    MembershipRow,
>
    decreases rows.len(),
{
    if rows.len() == 0 {
        pre
    } else {
        remove_pair(
            remove_pairs_all(pre, rows.drop_last()),
            rows.last().space_id,
            rows.last().address@,
        )
    }
}

/// Membership rows mirror added members, one to one, in order.
pub open spec fn member_rows_match(items: Seq<AddedMember>, rows: Seq<MembershipRow>) -> bool {
    rows.len() == items.len() && forall|k: int|
        0 <= k < rows.len() ==> member_row_matches(
            items[k].dao_address@,
            items[k].editor_address@,
            #[trigger] rows[k],
        )
}

/// Membership rows mirror removed members, one to one, in order.
pub open spec fn removed_rows_match(items: Seq<RemovedMember>, rows: Seq<MembershipRow>) -> bool {
    rows.len() == items.len() && forall|k: int|
        0 <= k < rows.len() ==> member_row_matches(
            items[k].dao_address@,
            items[k].editor_address@,
            #[trigger] rows[k],
        )
}

/// Storage after the block's membership slice: row batches mirroring
/// the added and removed members and editors, additions folded in
/// before removals; nothing else changes.
pub open spec fn membership_applied(
    pre: StorageModel,
    added_members: Seq<AddedMember>,
    removed_members: Seq<RemovedMember>,
    added_editors: Seq<AddedMember>,
    removed_editors: Seq<RemovedMember>,
    post: StorageModel,
) -> bool {
    &&& exists|am: Seq<MembershipRow>, rm: Seq<MembershipRow>|
        #[trigger] member_rows_match(added_members, am) && #[trigger] removed_rows_match(
            removed_members,
            rm,
        ) && post.members == remove_pairs_all(add_pairs_all(pre.members, am), rm)
    &&& exists|ae: Seq<MembershipRow>, re: Seq<MembershipRow>|
        #[trigger] member_rows_match(added_editors, ae) && #[trigger] removed_rows_match(
            removed_editors,
            re,
        ) && post.editors == remove_pairs_all(add_pairs_all(pre.editors, ae), re)
    &&& post == (StorageModel { members: post.members, editors: post.editors, ..pre })
}

pub struct MembershipHandler;

impl MembershipHandler {
    /// One membership row per added member: the space id derived from
    /// the DAO, the address checksummed.
    pub fn map_added(items: &Vec<AddedMember>) -> (r: Vec<MembershipRow>)
        ensures
            member_rows_match(items@, r@),
    {
        let mut out: Vec<MembershipRow> = Vec::new();
        let mut i: usize = 0;
        while i < items.len()
            invariant
                i <= items@.len(),
                out@.len() == i,
                forall|k: int|
                    0 <= k < i ==> member_row_matches(
                        items@[k].dao_address@,
                        items@[k].editor_address@,
                        #[trigger] out@[k],
                    ),
            decreases items@.len() - i,
        {
            out.push(
                MembershipRow {
                    space_id: derive_space_id(geo_network(), items[i].dao_address.as_str()),
                    address: checksum_address(items[i].editor_address.as_str()),
                },
            );
            i = i + 1;
        }
        out
    }

    /// One membership row per removed member, shaped the same way.
    pub fn map_removed(items: &Vec<RemovedMember>) -> (r: Vec<MembershipRow>)
        ensures
            removed_rows_match(items@, r@),
    {
        let mut out: Vec<MembershipRow> = Vec::new();
        let mut i: usize = 0;
        while i < items.len()
            invariant
                i <= items@.len(),
                out@.len() == i,
                forall|k: int|
                    0 <= k < i ==> member_row_matches(
                        items@[k].dao_address@,
                        items@[k].editor_address@,
                        #[trigger] out@[k],
                    ),
            decreases items@.len() - i,
        {
            out.push(
                MembershipRow {
                    space_id: derive_space_id(geo_network(), items[i].dao_address.as_str()),
                    address: checksum_address(items[i].editor_address.as_str()),
                },
            );
            i = i + 1;
        }
        out
    }

    /// Apply the block's membership slice: additions first, then
    /// removals, for members and for editors — a removal in the same
    /// block wins over an addition.
    pub fn run(
        added_members: &Vec<AddedMember>,
        removed_members: &Vec<RemovedMember>,
        added_editors: &Vec<AddedMember>,
        removed_editors: &Vec<RemovedMember>,
        _block: &BlockMetadata,
        storage: &mut Storage,
    )
        requires
            old(storage).wf(),
        ensures
            final(storage).wf(),
            membership_applied(
                old(storage)@,
                added_members@,
                removed_members@,
                added_editors@,
                removed_editors@,
                final(storage)@,
            ),
    {
        let am = Self::map_added(added_members);
        let rm = Self::map_removed(removed_members);
        let ae = Self::map_added(added_editors);
        let re = Self::map_removed(removed_editors);
        let ghost am_g = am@;
        let ghost rm_g = rm@;
        let ghost ae_g = ae@;
        let ghost re_g = re@;
        Self::add_all_members(storage, am);
        Self::add_all_editors(storage, ae);
        Self::remove_all_members(storage, rm);
        Self::remove_all_editors(storage, re);
        proof {
            assert(member_rows_match(added_members@, am_g) && removed_rows_match(
                removed_members@,
                rm_g,
            ) && final(storage)@.members == remove_pairs_all(
                add_pairs_all(old(storage)@.members, am_g),
                rm_g,
            ));
            assert(member_rows_match(added_editors@, ae_g) && removed_rows_match(
                removed_editors@,
                re_g,
            ) && final(storage)@.editors == remove_pairs_all(
                add_pairs_all(old(storage)@.editors, ae_g),
                re_g,
            ));
        }
    }

    /// Fold member rows in, idempotently, in order.
    fn add_all_members(storage: &mut Storage, rows: Vec<MembershipRow>)
        requires
            old(storage).wf(),
        ensures
            final(storage).wf(),
            final(storage)@ == (StorageModel {
                members: add_pairs_all(old(storage)@.members, rows@),
                ..old(storage)@
            }),
    {
        let ghost items = rows@;
        let ghost mut i: int = 0;
        let mut rest = rows;
        while rest.len() > 0
            invariant
                0 <= i <= items.len(),
                rest@ =~= items.skip(i),
                storage.wf(),
                storage@ == (StorageModel {
                    members: add_pairs_all(old(storage)@.members, items.take(i)),
                    ..old(storage)@
                }),
            decreases rest@.len(),
        {
            let ghost pre = items.take(i);
            let row = rest.remove(0);
            proof {
                assert(row == items[i]);
            }
            storage.add_member(row);
            proof {
                assert(items.take(i + 1).drop_last() =~= pre);
                assert(items.take(i + 1).last() == items[i]);
                i = i + 1;
                assert(rest@ =~= items.skip(i));
            }
        }
        proof {
            assert(items.take(items.len() as int) =~= items);
        }
    }

    /// Fold editor rows in, idempotently, in order.
    fn add_all_editors(storage: &mut Storage, rows: Vec<MembershipRow>)
        requires
            old(storage).wf(),
        ensures
            final(storage).wf(),
            final(storage)@ == (StorageModel {
                editors: add_pairs_all(old(storage)@.editors, rows@),
                ..old(storage)@
            }),
    {
        let ghost items = rows@;
        let ghost mut i: int = 0;
        let mut rest = rows;
        while rest.len() > 0
            invariant
                0 <= i <= items.len(),
                rest@ =~= items.skip(i),
                storage.wf(),
                storage@ == (StorageModel {
                    editors: add_pairs_all(old(storage)@.editors, items.take(i)),
                    ..old(storage)@
                }),
            decreases rest@.len(),
        {
            let ghost pre = items.take(i);
            let row = rest.remove(0);
            proof {
                assert(row == items[i]);
            }
            storage.add_editor(row);
            proof {
                assert(items.take(i + 1).drop_last() =~= pre);
                assert(items.take(i + 1).last() == items[i]);
                i = i + 1;
                assert(rest@ =~= items.skip(i));
            }
        }
        proof {
            assert(items.take(items.len() as int) =~= items);
        }
    }

    /// Fold member removals in, idempotently, in order.
    fn remove_all_members(storage: &mut Storage, rows: Vec<MembershipRow>)
        requires
            old(storage).wf(),
        ensures
            final(storage).wf(),
            final(storage)@ == (StorageModel {
                members: remove_pairs_all(old(storage)@.members, rows@),
                ..old(storage)@
            }),
    {
        let ghost items = rows@;
        let ghost mut i: int = 0;
        let mut rest = rows;
        while rest.len() > 0
            invariant
                0 <= i <= items.len(),
                rest@ =~= items.skip(i),
                storage.wf(),
                storage@ == (StorageModel {
                    members: remove_pairs_all(old(storage)@.members, items.take(i)),
                    ..old(storage)@
                }),
            decreases rest@.len(),
        {
            let ghost pre = items.take(i);
            let row = rest.remove(0);
            proof {
                assert(row == items[i]);
            }
            storage.remove_member(&row.space_id, &row.address);
            proof {
                assert(items.take(i + 1).drop_last() =~= pre);
                assert(items.take(i + 1).last() == items[i]);
                i = i + 1;
                assert(rest@ =~= items.skip(i));
            }
        }
        proof {
            assert(items.take(items.len() as int) =~= items);
        }
    }

    /// Fold editor removals in, idempotently, in order.
    fn remove_all_editors(storage: &mut Storage, rows: Vec<MembershipRow>)
        requires
            old(storage).wf(),
        ensures
            final(storage).wf(),
            final(storage)@ == (StorageModel {
                editors: remove_pairs_all(old(storage)@.editors, rows@),
                ..old(storage)@
            }),
    {
        let ghost items = rows@;
        let ghost mut i: int = 0;
        let mut rest = rows;
        while rest.len() > 0
            invariant
                0 <= i <= items.len(),
                rest@ =~= items.skip(i),
                storage.wf(),
                storage@ == (StorageModel {
                    editors: remove_pairs_all(old(storage)@.editors, items.take(i)),
                    ..old(storage)@
                }),
            decreases rest@.len(),
        {
            let ghost pre = items.take(i);
            let row = rest.remove(0);
            proof {
                assert(row == items[i]);
            }
            storage.remove_editor(&row.space_id, &row.address);
            proof {
                assert(items.take(i + 1).drop_last() =~= pre);
                assert(items.take(i + 1).last() == items[i]);
                i = i + 1;
                assert(rest@ =~= items.skip(i));
            }
        }
        proof {
            assert(items.take(items.len() as int) =~= items);
        }
    }
}

/// The subspace edge an added or removed subspace denotes: both ends
/// derived from their addresses.
pub open spec fn spec_subspace_edge(dao: Seq<char>, subspace: Seq<char>) -> SubspaceRow {
    SubspaceRow {
        parent_space_id: spec_space_id("geo"@, dao),
        child_space_id: spec_space_id("geo"@, subspace),
    }
}

/// Subspace edges folded in, one per added event, in order.
pub open spec fn subspaces_added_applied(
    pre: Seq<SubspaceRow>,
    items: Seq<AddedSubspace>,
) -> Seq<SubspaceRow>
    decreases items.len(),
{
    if items.len() == 0 {
        pre
    } else {
        add_edge(
            subspaces_added_applied(pre, items.drop_last()),
            spec_subspace_edge(items.last().dao_address@, items.last().subspace_address@),
        )
    }
}

/// Subspace edges removed, one per removed event, in order.
pub open spec fn subspaces_removed_applied(
    pre: Seq<SubspaceRow>,
    items: Seq<RemovedSubspace>,
) -> Seq<SubspaceRow>
    decreases items.len(),
{
    if items.len() == 0 {
        pre
    } else {
        let e = spec_subspace_edge(items.last().dao_address@, items.last().subspace_address@);
        remove_edge(
            subspaces_removed_applied(pre, items.drop_last()),
            e.parent_space_id,
            e.child_space_id,
        )
    }
}

/// Storage after the block's subspace slice: the added edges folded in,
/// then the removed edges taken out; nothing else changes.
pub open spec fn subspaces_applied(
    pre: StorageModel,
    added: Seq<AddedSubspace>,
    removed: Seq<RemovedSubspace>,
    post: StorageModel,
) -> bool {
    post == (StorageModel {
        subspaces: subspaces_removed_applied(subspaces_added_applied(pre.subspaces, added), removed),
        ..pre
    })
}

pub struct SubspaceHandler;

impl SubspaceHandler {
    /// Apply the block's subspace slice: additions first, then
    /// removals, both idempotent.
    pub fn run(
        added_subspaces: &Vec<AddedSubspace>,
        removed_subspaces: &Vec<RemovedSubspace>,
        _block: &BlockMetadata,
        storage: &mut Storage,
    )
        requires
            old(storage).wf(),
        ensures
            final(storage).wf(),
            subspaces_applied(old(storage)@, added_subspaces@, removed_subspaces@, final(storage)@),
    {
        let mut i: usize = 0;
        while i < added_subspaces.len()
            invariant
                i <= added_subspaces@.len(),
                storage.wf(),
                storage@ == (StorageModel {
                    subspaces: subspaces_added_applied(
                        old(storage)@.subspaces,
                        added_subspaces@.take(i as int),
                    ),
                    ..old(storage)@
                }),
            decreases added_subspaces@.len() - i,
        {
            let ghost pre = added_subspaces@.take(i as int);
            let s = &added_subspaces[i];
            let row = SubspaceRow {
                parent_space_id: derive_space_id(geo_network(), s.dao_address.as_str()),
                child_space_id: derive_space_id(geo_network(), s.subspace_address.as_str()),
            };
            storage.add_subspace(row);
            proof {
                assert(added_subspaces@.take(i + 1 as int).drop_last() =~= pre);
                assert(added_subspaces@.take(i + 1 as int).last() == added_subspaces@[i as int]);
            }
            i = i + 1;
        }
        proof {
            assert(added_subspaces@.take(added_subspaces@.len() as int) =~= added_subspaces@);
        }
        let ghost mid = storage@.subspaces;
        let mut i: usize = 0;
        while i < removed_subspaces.len()
            invariant
                i <= removed_subspaces@.len(),
                storage.wf(),
                mid == subspaces_added_applied(old(storage)@.subspaces, added_subspaces@),
                storage@ == (StorageModel {
                    subspaces: subspaces_removed_applied(mid, removed_subspaces@.take(i as int)),
                    ..old(storage)@
                }),
            decreases removed_subspaces@.len() - i,
        {
            let ghost pre = removed_subspaces@.take(i as int);
            let s = &removed_subspaces[i];
            let parent = derive_space_id(geo_network(), s.dao_address.as_str());
            let child = derive_space_id(geo_network(), s.subspace_address.as_str());
            storage.remove_subspace(&parent, &child);
            proof {
                assert(removed_subspaces@.take(i + 1 as int).drop_last() =~= pre);
                assert(removed_subspaces@.take(i + 1 as int).last()
                    == removed_subspaces@[i as int]);
            }
            i = i + 1;
        }
        proof {
            assert(removed_subspaces@.take(removed_subspaces@.len() as int) =~= removed_subspaces@);
        }
    }
}

/// Storage after the block's proposals: one row per created proposal,
/// upserted with status created, then every executed proposal whose
/// on-chain id parses marked executed; nothing else changes.
pub open spec fn proposals_applied(
    pre: StorageModel,
    created: Seq<ProposalCreated>,
    executed: Seq<ExecutedProposal>,
    block_number: u64,
    post: StorageModel,
) -> bool {
    exists|items: Seq<ProposalItem>|
        {
            &&& #[trigger] items.len() == created.len()
            &&& (forall|k: int|
                0 <= k < items.len() ==> proposal_item_matches(
                    created[k],
                    #[trigger] items[k],
                    block_number,
                ))
            &&& post == (StorageModel {
                proposals: set_proposal_status(
                    upsert_all(pre.proposals, items),
                    executed_ids(executed),
                    ProposalStatus::Executed,
                ),
                ..pre
            })
        }
}

pub struct ProposalHandler;

impl ProposalHandler {
    /// Apply the block's proposals: upsert one row per created proposal
    /// with status `Created`, then mark every executed proposal whose
    /// on-chain id parses as executed.
    pub fn run(
        created_proposals: &Vec<ProposalCreated>,
        executed_proposals: &Vec<ExecutedProposal>,
        block: &BlockMetadata,
        storage: &mut Storage,
    )
        requires
            old(storage).wf(),
        ensures
            final(storage).wf(),
            proposals_applied(
                old(storage)@,
                created_proposals@,
                executed_proposals@,
                block.block_number,
                final(storage)@,
            ),
    {
        let items = ProposalsModel::map_created_proposals(created_proposals, block.block_number);
        let ghost items_g = items@;
        storage.insert_proposals(items);
        let ids = ProposalsModel::map_executed_proposals(executed_proposals);
        storage.update_proposal_status(ids, ProposalStatus::Executed);
        proof {
            assert(items_g.len() == created_proposals@.len() && (forall|k: int|
                0 <= k < items_g.len() ==> proposal_item_matches(
                    created_proposals@[k],
                    #[trigger] items_g[k],
                    block.block_number,
                )) && final(storage)@ == (StorageModel {
                proposals: set_proposal_status(
                    upsert_all(old(storage)@.proposals, items_g),
                    executed_ids(executed_proposals@),
                    ProposalStatus::Executed,
                ),
                ..old(storage)@
            }));
        }
    }
}

} // verus!

verus! {

/// The in-memory properties cache after the squashed properties of one
/// edit are recorded, in order.
pub open spec fn cache_with(
    pre: Map<Uid, crate::properties::DataType>,
    props: Seq<PropertyItem>,
) -> Map<Uid, crate::properties::DataType>
    decreases props.len(),
{
    if props.len() == 0 {
        pre
    } else {
        cache_with(pre, props.drop_last()).insert(props.last().id, props.last().data_type)
    }
}

/// The intermediate batches one edit produces on its way to storage.
pub struct EditWitness {
    pub ents: Seq<EntityItem>,
    pub created: Seq<ValueOp>,
    pub deleted: Seq<ValueOp>,
    pub rel_created: Seq<RelationItem>,
    pub rel_updated: Seq<RelationUpdateItem>,
    pub rel_unset: Seq<RelationUnsetItem>,
}

/// The batches of one edit are exactly what its operations call for:
/// entities stamped with the block, set and unset values validated
/// against the cache as it stands after the edit's own properties, and
/// the four relation batches mirroring the relation operations.
pub open spec fn edit_witness_ok(
    ed: Edit,
    space: Uid,
    block: BlockMetadata,
    cache_mid: Map<Uid, crate::properties::DataType>,
    w: EditWitness,
) -> bool {
    &&& w.ents.len() == mentioned_entities(ed.ops@).len()
    &&& (forall|k: int|
        0 <= k < w.ents.len() ==> {
            &&& (#[trigger] w.ents[k]).id == mentioned_entities(ed.ops@)[k]
            &&& w.ents[k].created_at@ == block.timestamp@
            &&& w.ents[k].created_at_block == block.block_number
            &&& w.ents[k].updated_at@ == block.timestamp@
            &&& w.ents[k].updated_at_block == block.block_number
        })
    &&& w.created.len() == set_sources(ed.ops@).len()
    &&& (forall|k: int|
        0 <= k < w.created.len() ==> set_op_matches(
            set_sources(ed.ops@)[k],
            cache_dt(cache_mid, set_sources(ed.ops@)[k].property),
            #[trigger] w.created[k],
            space,
        ))
    &&& w.deleted.len() == unset_sources(ed.ops@).len()
    &&& (forall|k: int|
        0 <= k < w.deleted.len() ==> unset_op_matches(
            unset_sources(ed.ops@)[k],
            #[trigger] w.deleted[k],
            space,
        ))
    &&& w.rel_created.len() == rel_creates(ed.ops@).len()
    &&& (forall|k: int|
        0 <= k < w.rel_created.len() ==> rel_item_matches(
            rel_creates(ed.ops@)[k],
            #[trigger] w.rel_created[k],
            space,
        ))
    &&& w.rel_updated.len() == rel_updates(ed.ops@).len()
    &&& (forall|k: int|
        0 <= k < w.rel_updated.len() ==> rel_update_matches(
            rel_updates(ed.ops@)[k],
            #[trigger] w.rel_updated[k],
            space,
        ))
    &&& w.rel_unset.len() == rel_updates(ed.ops@).len()
    &&& (forall|k: int|
        0 <= k < w.rel_unset.len() ==> rel_unset_matches(
            rel_updates(ed.ops@)[k],
            #[trigger] w.rel_unset[k],
            space,
        ))
}

/// Storage after one edit's batches are written, in statement order:
/// properties first without overwriting, then entity touches, then set
/// values, then unset values, then relation creates, updates, field
/// unsets and deletes, all within the edit's space.
pub open spec fn apply_edit_writes(
    pre: StorageModel,
    props: Seq<PropertyItem>,
    w: EditWitness,
    deletes: Seq<Uid>,
    space: Uid,
) -> StorageModel {
    StorageModel {
        properties: insert_new_only(pre.properties, props),
        entities: touch_entities(pre.entities, w.ents),
        values: remove_values(
            upsert_all(pre.values, filter_populated(w.created)),
            w.deleted,
            space,
        ),
        relations: remove_relations(
            unset_relations_seq(
                update_relations_seq(upsert_all(pre.relations, w.rel_created), w.rel_updated),
                w.rel_unset,
            ),
            deletes,
            space,
        ),
        ..pre
    }
}

/// What applying one cache row does: an errored or payload-less row
/// changes nothing; a decoded edit records its squashed properties in
/// the cache and writes its batches in statement order.
pub open spec fn edit_applied(
    pre_s: StorageModel,
    pre_c: Map<Uid, crate::properties::DataType>,
    pe: PreprocessedEdit,
    block: BlockMetadata,
    post_s: StorageModel,
    post_c: Map<Uid, crate::properties::DataType>,
) -> bool {
    if pe.is_errored || pe.edit is None {
        post_s == pre_s && post_c == pre_c
    } else {
        let ed = *pe.edit->Some_0;
        let props = squash_properties(created_properties(ed.ops@));
        let cache2 = cache_with(pre_c, props);
        &&& post_c == cache2
        &&& exists|w: EditWitness|
            #[trigger] edit_witness_ok(ed, pe.space_id, block, cache2, w) && post_s
                == apply_edit_writes(pre_s, props, w, rel_deletes(ed.ops@), pe.space_id)
    }
}

/// A state for each step of a block's edits: `states[k]` is the storage
/// and cache before edit `k`, and each consecutive pair is one applied
/// edit.
pub open spec fn edits_chain_ok(
    states: Seq<(StorageModel, Map<Uid, crate::properties::DataType>)>,
    edits: Seq<PreprocessedEdit>,
    block: BlockMetadata,
) -> bool {
    states.len() == edits.len() + 1 && forall|k: int|
        0 <= k < edits.len() ==> edit_applied(
            (#[trigger] states[k]).0,
            states[k].1,
            edits[k],
            block,
            states[k + 1].0,
            states[k + 1].1,
        )
}

/// Storage and cache after a block's edits: some chain of intermediate
/// states in which each cache row is applied in order.
pub open spec fn edits_block_applied(
    pre_s: StorageModel,
    pre_c: Map<Uid, crate::properties::DataType>,
    edits: Seq<PreprocessedEdit>,
    block: BlockMetadata,
    post_s: StorageModel,
    post_c: Map<Uid, crate::properties::DataType>,
) -> bool {
    exists|states: Seq<(StorageModel, Map<Uid, crate::properties::DataType>)>|
        #[trigger] edits_chain_ok(states, edits, block) && states.first() == (pre_s, pre_c)
            && states.last() == (post_s, post_c)
}

pub struct EditHandler;

impl EditHandler {
    /// Apply one cache row: skip it when it is errored or carries no
    /// payload; otherwise record its squashed properties in the cache
    /// first, so value validation sees them, then write its batches in
    /// statement order.
    #[verifier::rlimit(60)]
    pub fn run_one(
        pe: &PreprocessedEdit,
        block: &BlockMetadata,
        storage: &mut Storage,
        cache: &mut PropertiesCache,
    )
        requires
            old(storage).wf(),
            old(cache).wf(),
        ensures
            final(storage).wf(),
            final(cache).wf(),
            edit_applied(
                old(storage)@,
                old(cache)@,
                *pe,
                *block,
                final(storage)@,
                final(cache)@,
            ),
    {
        if pe.is_errored {
            return;
        }
        let rc = match &pe.edit {
            Some(rc) => rc,
            None => {
                return;
            },
        };
        let edit = rc_borrow(rc);
        let space_id = pe.space_id;
        let properties = PropertiesModel::map_edit_to_properties(edit);
        let ghost props_g = properties@;
        let mut i: usize = 0;
        while i < properties.len()
            invariant
                i <= props_g.len(),
                properties@ == props_g,
                cache.wf(),
                cache@ == cache_with(old(cache)@, props_g.take(i as int)),
            decreases props_g.len() - i,
        {
            let ghost pre = props_g.take(i as int);
            let p = properties[i];
            cache.insert(&p.id, p.data_type);
            proof {
                assert(props_g.take(i + 1 as int).drop_last() =~= pre);
                assert(props_g.take(i + 1 as int).last() == props_g[i as int]);
            }
            i = i + 1;
        }
        proof {
            assert(props_g.take(props_g.len() as int) =~= props_g);
        }
        storage.insert_properties(properties);
        let entities = EntitiesModel::map_edit_to_entities(edit, block);
        let ghost ents_g = entities@;
        storage.insert_entities(entities);
        let (created_values, deleted_values) = ValuesModel::map_edit_to_values(
            edit,
            &space_id,
            cache,
        );
        let ghost created_g = created_values@;
        let ghost deleted_g = deleted_values@;
        let validated = ValuesModel::validate_created_values(created_values, cache);
        proof {
            assert(crate::values::canonical_value_ids(created_g)) by {
                assert forall|k: int| 0 <= k < created_g.len() implies (#[trigger] created_g[k]).id
                    == crate::values::spec_value_id(
                    created_g[k].entity_id,
                    created_g[k].property_id,
                    created_g[k].space_id,
                ) by {
                    let ed2 = *pe.edit->Some_0;
                    assert(set_op_matches(
                        set_sources(ed2.ops@)[k],
                        cache_dt(cache@, set_sources(ed2.ops@)[k].property),
                        created_g[k],
                        space_id,
                    ));
                }
            }
            crate::values::lemma_filter_populated_canonical(created_g);
        }
        storage.insert_values(validated);
        storage.delete_values(deleted_values, &space_id);
        let (rel_created, rel_updated, rel_unset, rel_deleted) =
            RelationsModel::map_edit_to_relations(edit, &space_id);
        let ghost rc_g = rel_created@;
        let ghost ru_g = rel_updated@;
        let ghost runs_g = rel_unset@;
        storage.insert_relations(rel_created);
        storage.update_relations(rel_updated);
        storage.unset_relation_fields(rel_unset);
        storage.delete_relations(rel_deleted, &space_id);
        proof {
            let ed = *pe.edit->Some_0;
            let w = EditWitness {
                ents: ents_g,
                created: created_g,
                deleted: deleted_g,
                rel_created: rc_g,
                rel_updated: ru_g,
                rel_unset: runs_g,
            };
            assert(edit_witness_ok(
                ed,
                pe.space_id,
                *block,
                cache_with(old(cache)@, props_g),
                w,
            ));
            assert(final(storage)@ == apply_edit_writes(
                old(storage)@,
                props_g,
                w,
                rel_deletes(ed.ops@),
                pe.space_id,
            ));
        }
    }

    /// Apply a block's cache rows, one at a time, in order.
    pub fn run(
        output: &Vec<PreprocessedEdit>,
        block: &BlockMetadata,
        storage: &mut Storage,
        cache: &mut PropertiesCache,
    )
        requires
            old(storage).wf(),
            old(cache).wf(),
        ensures
            final(storage).wf(),
            final(cache).wf(),
            edits_block_applied(
                old(storage)@,
                old(cache)@,
                output@,
                *block,
                final(storage)@,
                final(cache)@,
            ),
    {
        let ghost mut states: Seq<(StorageModel, Map<Uid, crate::properties::DataType>)> = seq![
            (old(storage)@, old(cache)@),
        ];
        let mut i: usize = 0;
        while i < output.len()
            invariant
                i <= output@.len(),
                storage.wf(),
                cache.wf(),
                states.len() == i + 1,
                states.first() == (old(storage)@, old(cache)@),
                states.last() == (storage@, cache@),
                forall|k: int|
                    0 <= k < i ==> edit_applied(
                        (#[trigger] states[k]).0,
                        states[k].1,
                        output@[k],
                        *block,
                        states[k + 1].0,
                        states[k + 1].1,
                    ),
            decreases output@.len() - i,
        {
            Self::run_one(&output[i], block, storage, cache);
            proof {
                states = states.push((storage@, cache@));
            }
            i = i + 1;
        }
        proof {
            assert(edits_chain_ok(states, output@, *block));
        }
    }
}

/// The stores a block's run passes through, one per handler boundary.
pub struct BlockTrace {
    pub after_spaces: StorageModel,
    pub after_edits: StorageModel,
    pub after_membership: StorageModel,
    pub after_subspaces: StorageModel,
}

/// One block applied through the given trace: spaces first, then the
/// edit chain (which also fixes the final properties cache), then
/// membership, subspaces and proposals, each stage exactly its
/// handler's contract on the previous stage's store.
pub open spec fn block_trace_ok(
    pre_s: StorageModel,
    pre_c: Map<Uid, crate::properties::DataType>,
    output: KgData,
    block: BlockMetadata,
    t: BlockTrace,
    post_s: StorageModel,
    post_c: Map<Uid, crate::properties::DataType>,
) -> bool {
    &&& spaces_applied(pre_s, output.spaces@, t.after_spaces)
    &&& edits_block_applied(t.after_spaces, pre_c, output.edits@, block, t.after_edits, post_c)
    &&& membership_applied(
        t.after_edits,
        output.added_members@,
        output.removed_members@,
        output.added_editors@,
        output.removed_editors@,
        t.after_membership,
    )
    &&& subspaces_applied(
        t.after_membership,
        output.added_subspaces@,
        output.removed_subspaces@,
        t.after_subspaces,
    )
    &&& proposals_applied(
        t.after_subspaces,
        output.created_proposals@,
        output.executed_proposals@,
        block.block_number,
        post_s,
    )
}

/// One block applied: some trace of intermediate stores connects the
/// store and cache before the block to the store and cache after it.
pub open spec fn block_applied(
    pre_s: StorageModel,
    pre_c: Map<Uid, crate::properties::DataType>,
    output: KgData,
    block: BlockMetadata,
    post_s: StorageModel,
    post_c: Map<Uid, crate::properties::DataType>,
) -> bool {
    exists|t: BlockTrace| #[trigger] block_trace_ok(pre_s, pre_c, output, block, t, post_s, post_c)
}

pub struct RootHandler;

impl RootHandler {
    /// Apply one preprocessed block: spaces, edits, membership and
    /// subspaces each write their own tables, then proposals are
    /// indexed. The four slices touch disjoint tables, so this fixed
    /// order produces the same stores as any interleaving.
    pub fn run(
        output: &KgData,
        block: &BlockMetadata,
        storage: &mut Storage,
        properties_cache: &mut PropertiesCache,
    )
        requires
            old(storage).wf(),
            old(properties_cache).wf(),
        ensures
            final(storage).wf(),
            final(properties_cache).wf(),
            block_applied(
                old(storage)@,
                old(properties_cache)@,
                *output,
                *block,
                final(storage)@,
                final(properties_cache)@,
            ),
    {
        SpaceHandler::run(&output.spaces, block, storage);
        let ghost after_spaces = storage@;
        EditHandler::run(&output.edits, block, storage, properties_cache);
        let ghost after_edits = storage@;
        MembershipHandler::run(
            &output.added_members,
            &output.removed_members,
            &output.added_editors,
            &output.removed_editors,
            block,
            storage,
        );
        let ghost after_membership = storage@;
        SubspaceHandler::run(&output.added_subspaces, &output.removed_subspaces, block, storage);
        let ghost after_subspaces = storage@;
        ProposalHandler::run(
            &output.created_proposals,
            &output.executed_proposals,
            block,
            storage,
        );
        proof {
            let t = BlockTrace { after_spaces, after_edits, after_membership, after_subspaces };
            assert(block_trace_ok(
                old(storage)@,
                old(properties_cache)@,
                *output,
                *block,
                t,
                final(storage)@,
                final(properties_cache)@,
            ));
        }
    }
}

} // verus!

//! Relation operations: create, update, field unset and delete.
//!
//! A relation is a directed, typed edge between two entities, scoped to
//! a space. Creations insert whole rows; updates set the optional
//! fields that are present; a present-but-empty field is the sentinel
//! for clearing the stored field; deletions remove by id within the
//! edit's space.

use vstd::prelude::*;
use vstd::string::StrSliceExecFns;
use crate::edit::{Edit, Op, Payload, Relation, RelationUpdate};
use crate::uid::{uid_of_bytes, Uid};

verus! {

/// A relation row headed for storage.
#[derive(Clone, Debug)]
pub struct RelationItem {
    pub id: Uid,
    pub entity_id: Uid,
    pub type_id: Uid,
    pub from_entity_id: Uid,
    pub from_space_id: Option<Uid>,
    pub from_version_id: Option<Uid>,
    pub to_entity_id: Uid,
    pub to_space_id: Option<Uid>,
    pub to_version_id: Option<Uid>,
    pub position: Option<String>,
    pub space_id: Uid,
    pub verified: Option<bool>,
}

/// Field updates for one relation: a `Some` field is set on the stored
/// row; a `None` field is left alone.
#[derive(Clone, Debug)]
pub struct RelationUpdateItem {
    pub id: Uid,
    pub from_space_id: Option<Uid>,
    pub from_version_id: Option<Uid>,
    pub to_space_id: Option<Uid>,
    pub to_version_id: Option<Uid>,
    pub position: Option<String>,
    pub verified: Option<bool>,
    pub space_id: Uid,
}

/// Fields to clear on one relation: a `true` flag clears that stored
/// field.
#[derive(Clone, Copy, Debug, PartialEq, Eq, Structural)]
pub struct RelationUnsetItem {
    pub id: Uid,
    pub from_space_id: bool,
    pub from_version_id: bool,
    pub to_space_id: bool,
    pub to_version_id: bool,
    pub position: bool,
    pub space_id: Uid,
}

/// An optional sixteen-byte id field, read as an id; anything else is
/// treated as absent.
pub open spec fn opt_uid_of(o: Option<Vec<u8>>) -> Option<Uid> {
    match o {
        Some(b) => if b@.len() == 16 {
            Some(uid_of_bytes(b@))
        } else {
            None
        },
        None => None,
    }
}

/// True when an optional byte field carries the clear sentinel: present
/// and empty.
pub open spec fn clear_flag(o: Option<Vec<u8>>) -> bool {
    match o {
        Some(b) => b@.len() == 0,
        None => false,
    }
}

/// The well-formed `CreateRelation` payloads of an op sequence: those
/// whose five required ids are sixteen bytes each.
pub open spec fn rel_creates(ops: Seq<Op>) -> Seq<Relation>
    decreases ops.len(),
{
    if ops.len() == 0 {
        Seq::empty()
    } else {
        rel_creates(ops.drop_last()) + (match ops.last().payload {
            Some(Payload::CreateRelation(r)) => if rel_ids_ok(r) {
                seq![r]
            } else {
                Seq::empty()
            },
            _ => Seq::empty(),
        })
    }
}

/// The five required ids of a `CreateRelation` are well-formed.
pub open spec fn rel_ids_ok(r: Relation) -> bool {
    r.id@.len() == 16 && r.type_id@.len() == 16 && r.entity@.len() == 16
        && r.from_entity@.len() == 16 && r.to_entity@.len() == 16
}

/// The well-formed `UpdateRelation` payloads of an op sequence: those
/// whose id is sixteen bytes.
pub open spec fn rel_updates(ops: Seq<Op>) -> Seq<RelationUpdate>
    decreases ops.len(),
{
    if ops.len() == 0 {
        Seq::empty()
    } else {
        rel_updates(ops.drop_last()) + (match ops.last().payload {
            Some(Payload::UpdateRelation(u)) => if u.id@.len() == 16 {
                seq![u]
            } else {
                Seq::empty()
            },
            _ => Seq::empty(),
        })
    }
}

/// The well-formed `DeleteRelation` ids of an op sequence.
pub open spec fn rel_deletes(ops: Seq<Op>) -> Seq<Uid>
    decreases ops.len(),
{
    if ops.len() == 0 {
        Seq::empty()
    } else {
        rel_deletes(ops.drop_last()) + (match ops.last().payload {
            Some(Payload::DeleteRelation(b)) => if b@.len() == 16 {
                seq![uid_of_bytes(b@)]
            } else {
                Seq::empty()
            },
            _ => Seq::empty(),
        })
    }
}

/// How a created relation row mirrors its wire payload.
pub open spec fn rel_item_matches(r: Relation, item: RelationItem, space: Uid) -> bool {
    &&& item.id == uid_of_bytes(r.id@)
    &&& item.type_id == uid_of_bytes(r.type_id@)
    &&& item.entity_id == uid_of_bytes(r.entity@)
    &&& item.from_entity_id == uid_of_bytes(r.from_entity@)
    &&& item.to_entity_id == uid_of_bytes(r.to_entity@)
    &&& item.from_space_id == opt_uid_of(r.from_space)
    &&& item.from_version_id == opt_uid_of(r.from_version)
    &&& item.to_space_id == opt_uid_of(r.to_space)
    &&& item.to_version_id == opt_uid_of(r.to_version)
    &&& crate::values::opt_text(item.position) == (match r.position {
        Some(p) => Some(p@),
        None => None,
    })
    &&& item.space_id == space
    &&& item.verified == r.verified
}

/// How an update item mirrors its wire payload: present sixteen-byte
/// fields set, the position set when present and non-empty.
pub open spec fn rel_update_matches(u: RelationUpdate, item: RelationUpdateItem, space: Uid) -> bool {
    &&& item.id == uid_of_bytes(u.id@)
    &&& item.from_space_id == opt_uid_of(u.from_space)
    &&& item.from_version_id == opt_uid_of(u.from_version)
    &&& item.to_space_id == opt_uid_of(u.to_space)
    &&& item.to_version_id == opt_uid_of(u.to_version)
    &&& crate::values::opt_text(item.position) == (match u.position {
        Some(p) => if p@.len() > 0 {
            Some(p@)
        } else {
            None
        },
        None => None,
    })
    &&& item.verified == u.verified
    &&& item.space_id == space
}

/// How an unset item mirrors its wire payload: each flag raised exactly
/// where the payload carries the clear sentinel.
pub open spec fn rel_unset_matches(u: RelationUpdate, item: RelationUnsetItem, space: Uid) -> bool {
    &&& item.id == uid_of_bytes(u.id@)
    &&& item.from_space_id == clear_flag(u.from_space)
    &&& item.from_version_id == clear_flag(u.from_version)
    &&& item.to_space_id == clear_flag(u.to_space)
    &&& item.to_version_id == clear_flag(u.to_version)
    &&& item.position == (match u.position {
        Some(p) => p@.len() == 0,
        None => false,
    })
    &&& item.space_id == space
}

pub struct RelationsModel;

impl RelationsModel {
    /// Walk an edit's relation operations into the four storage
    /// batches: creations, updates, field unsets and deletions, each
    /// mirroring its well-formed wire payloads one to one.
    pub fn map_edit_to_relations(edit: &Edit, space_id: &Uid) -> (r: (
        Vec<RelationItem>,
        Vec<RelationUpdateItem>,
        Vec<RelationUnsetItem>,
        Vec<Uid>,
    ))
        ensures
            r.0@.len() == rel_creates(edit.ops@).len(),
            forall|k: int|
                0 <= k < r.0@.len() ==> rel_item_matches(
                    rel_creates(edit.ops@)[k],
                    #[trigger] r.0@[k],
                    *space_id,
                ),
            r.1@.len() == rel_updates(edit.ops@).len(),
            forall|k: int|
                0 <= k < r.1@.len() ==> rel_update_matches(
                    rel_updates(edit.ops@)[k],
                    #[trigger] r.1@[k],
                    *space_id,
                ),
            r.2@.len() == rel_updates(edit.ops@).len(),
            forall|k: int|
                0 <= k < r.2@.len() ==> rel_unset_matches(
                    rel_updates(edit.ops@)[k],
                    #[trigger] r.2@[k],
                    *space_id,
                ),
            r.3@ == rel_deletes(edit.ops@),
    {
        let mut created: Vec<RelationItem> = Vec::new();
        let mut updated: Vec<RelationUpdateItem> = Vec::new();
        let mut unset: Vec<RelationUnsetItem> = Vec::new();
        let mut deleted: Vec<Uid> = Vec::new();
        let mut i: usize = 0;
        while i < edit.ops.len()
            invariant
                i <= edit.ops@.len(),
                created@.len() == rel_creates(edit.ops@.take(i as int)).len(),
                forall|k: int|
                    0 <= k < created@.len() ==> rel_item_matches(
                        rel_creates(edit.ops@.take(i as int))[k],
                        #[trigger] created@[k],
                        *space_id,
                    ),
                updated@.len() == rel_updates(edit.ops@.take(i as int)).len(),
                forall|k: int|
                    0 <= k < updated@.len() ==> rel_update_matches(
                        rel_updates(edit.ops@.take(i as int))[k],
                        #[trigger] updated@[k],
                        *space_id,
                    ),
                unset@.len() == rel_updates(edit.ops@.take(i as int)).len(),
                forall|k: int|
                    0 <= k < unset@.len() ==> rel_unset_matches(
                        rel_updates(edit.ops@.take(i as int))[k],
                        #[trigger] unset@[k],
                        *space_id,
                    ),
                deleted@ == rel_deletes(edit.ops@.take(i as int)),
            decreases edit.ops@.len() - i,
        {
            let ghost pre = edit.ops@.take(i as int);
            match &edit.ops[i].payload {
                Some(Payload::CreateRelation(r)) => {
                    if r.id.len() == 16 && r.type_id.len() == 16 && r.entity.len() == 16
                        && r.from_entity.len() == 16 && r.to_entity.len() == 16 {
                        created.push(
                            RelationItem {
                                id: Uid::from_byte_vec(&r.id),
                                entity_id: Uid::from_byte_vec(&r.entity),
                                type_id: Uid::from_byte_vec(&r.type_id),
                                from_entity_id: Uid::from_byte_vec(&r.from_entity),
                                from_space_id: Self::opt_uid(&r.from_space),
                                from_version_id: Self::opt_uid(&r.from_version),
                                to_entity_id: Uid::from_byte_vec(&r.to_entity),
                                to_space_id: Self::opt_uid(&r.to_space),
                                to_version_id: Self::opt_uid(&r.to_version),
                                position: match &r.position {
                                    Some(p) => Some(p.clone()),
                                    None => None,
                                },
                                space_id: *space_id,
                                verified: r.verified,
                            },
                        );
                    }
                },
                Some(Payload::UpdateRelation(u)) => {
                    if u.id.len() == 16 {
                        let id = Uid::from_byte_vec(&u.id);
                        updated.push(
                            RelationUpdateItem {
                                id,
                                from_space_id: Self::opt_uid(&u.from_space),
                                from_version_id: Self::opt_uid(&u.from_version),
                                to_space_id: Self::opt_uid(&u.to_space),
                                to_version_id: Self::opt_uid(&u.to_version),
                                position: match &u.position {
                                    Some(p) => if p.unicode_len() > 0 {
                                        Some(p.clone())
                                    } else {
                                        None
                                    },
                                    None => None,
                                },
                                verified: u.verified,
                                space_id: *space_id,
                            },
                        );
                        unset.push(
                            RelationUnsetItem {
                                id,
                                from_space_id: Self::is_clear(&u.from_space),
                                from_version_id: Self::is_clear(&u.from_version),
                                to_space_id: Self::is_clear(&u.to_space),
                                to_version_id: Self::is_clear(&u.to_version),
                                position: match &u.position {
                                    Some(p) => p.unicode_len() == 0,
                                    None => false,
                                },
                                space_id: *space_id,
                            },
                        );
                    }
                },
                Some(Payload::DeleteRelation(b)) => {
                    if b.len() == 16 {
                        deleted.push(Uid::from_byte_vec(b));
                    }
                },
                _ => {},
            }
            proof {
                assert(edit.ops@.take(i + 1 as int).drop_last() =~= pre);
                assert(edit.ops@.take(i + 1 as int).last() == edit.ops@[i as int]);
            }
            i = i + 1;
        }
        proof {
            assert(edit.ops@.take(edit.ops@.len() as int) =~= edit.ops@);
        }
        (created, updated, unset, deleted)
    }

    /// Read an optional id field; non-sixteen-byte content is absent.
    fn opt_uid(o: &Option<Vec<u8>>) -> (r: Option<Uid>)
        ensures
            r == opt_uid_of(*o),
    {
        match o {
            Some(b) => if b.len() == 16 {
                Some(Uid::from_byte_vec(b))
            } else {
                None
            },
            None => None,
        }
    }

    /// Whether an optional id field carries the clear sentinel.
    fn is_clear(o: &Option<Vec<u8>>) -> (r: bool)
        ensures
            r == clear_flag(*o),
    {
        match o {
            Some(b) => b.len() == 0,
            None => false,
        }
    }
}

} // verus!

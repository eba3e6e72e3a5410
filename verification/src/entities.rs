//! Entities touched by an edit.
//!
//! Every entity mentioned by an `UpdateEntity` or `UnsetEntityValues`
//! operation is upserted: created on first mention, and its
//! `updated_at` pair advanced to the current block on every mention.

use vstd::prelude::*;
use crate::edit::{Edit, Op, Payload};
use crate::uid::{uid_of_bytes, Uid};
use crate::BlockMetadata;

verus! {

/// An entity row: identity plus creation and last-touch stamps.
#[derive(Clone, Debug)]
pub struct EntityItem {
    pub id: Uid,
    pub created_at: String,
    pub created_at_block: u64,
    pub updated_at: String,
    pub updated_at_block: u64,
}

/// The entity ids an op sequence mentions, in order: the subjects of
/// `UpdateEntity` and `UnsetEntityValues` operations whose id is
/// sixteen bytes.
pub open spec fn mentioned_entities(ops: Seq<Op>) -> Seq<Uid>
    decreases ops.len(),
{
    if ops.len() == 0 {
        Seq::empty()
    } else {
        mentioned_entities(ops.drop_last()) + entity_of_op(ops.last())
    }
}

/// Zero or one entity ids mentioned by one op.
pub open spec fn entity_of_op(op: Op) -> Seq<Uid> {
    match op.payload {
        Some(Payload::UpdateEntity(e)) => if e.id@.len() == 16 {
            seq![uid_of_bytes(e.id@)]
        } else {
            Seq::empty()
        },
        Some(Payload::UnsetEntityValues(u)) => if u.id@.len() == 16 {
            seq![uid_of_bytes(u.id@)]
        } else {
            Seq::empty()
        },
        _ => Seq::empty(),
    }
}

pub struct EntitiesModel;

impl EntitiesModel {
    /// One entity item per mentioned entity, in order, stamped with the
    /// current block.
    pub fn map_edit_to_entities(edit: &Edit, block: &BlockMetadata) -> (r: Vec<EntityItem>)
        ensures
            r@.len() == mentioned_entities(edit.ops@).len(),
            forall|k: int|
                0 <= k < r@.len() ==> {
                    &&& (#[trigger] r@[k]).id == mentioned_entities(edit.ops@)[k]
                    &&& r@[k].created_at@ == block.timestamp@
                    &&& r@[k].created_at_block == block.block_number
                    &&& r@[k].updated_at@ == block.timestamp@
                    &&& r@[k].updated_at_block == block.block_number
                },
    {
        let mut out: Vec<EntityItem> = Vec::new();
        let mut i: usize = 0;
        while i < edit.ops.len()
            invariant
                i <= edit.ops@.len(),
                out@.len() == mentioned_entities(edit.ops@.take(i as int)).len(),
                forall|k: int|
                    0 <= k < out@.len() ==> {
                        &&& (#[trigger] out@[k]).id == mentioned_entities(
                            edit.ops@.take(i as int),
                        )[k]
                        &&& out@[k].created_at@ == block.timestamp@
                        &&& out@[k].created_at_block == block.block_number
                        &&& out@[k].updated_at@ == block.timestamp@
                        &&& out@[k].updated_at_block == block.block_number
                    },
            decreases edit.ops@.len() - i,
        {
            let ghost pre = edit.ops@.take(i as int);
            match &edit.ops[i].payload {
                Some(Payload::UpdateEntity(e)) => {
                    if e.id.len() == 16 {
                        let id = Uid::from_byte_vec(&e.id);
                        out.push(
                            EntityItem {
                                id,
                                created_at: block.timestamp.clone(),
                                created_at_block: block.block_number,
                                updated_at: block.timestamp.clone(),
                                updated_at_block: block.block_number,
                            },
                        );
                    }
                },
                Some(Payload::UnsetEntityValues(u)) => {
                    if u.id.len() == 16 {
                        let id = Uid::from_byte_vec(&u.id);
                        out.push(
                            EntityItem {
                                id,
                                created_at: block.timestamp.clone(),
                                created_at_block: block.block_number,
                                updated_at: block.timestamp.clone(),
                                updated_at_block: block.block_number,
                            },
                        );
                    }
                },
                _ => {},
            }
            proof {
                assert(edit.ops@.take(i + 1 as int).drop_last() =~= pre);
                assert(edit.ops@.take(i + 1 as int).last() == edit.ops@[i as int]);
            }
            i = i + 1;
        }
        proof {
            assert(edit.ops@.take(edit.ops@.len() as int) =~= edit.ops@);
        }
        out
    }
}

} // verus!

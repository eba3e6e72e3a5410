//! Test-facing helpers: typed queries over the store, so tests can
//! verify what a block left behind without reaching into the tables.

use vstd::prelude::*;
use vstd::string::StringExecFns;
use crate::entities::EntityItem;
use crate::proposals::ProposalItem;
use crate::relations::RelationItem;
use crate::storage::{
    has_key, lookup_key, SpaceRow, SpaceType, Storage, str_eq,
};
use crate::uid::Uid;
use crate::values::ValueOp;

verus! {

/// A read-oriented wrapper around the store for tests.
pub struct TestStorage {
    pub storage: Storage,
}

/// The space rows whose DAO address is listed, in storage order.
pub open spec fn spaces_with_dao(s: Seq<SpaceRow>, addrs: Seq<String>) -> Seq<SpaceRow>
    decreases s.len(),
{
    if s.len() == 0 {
        Seq::empty()
    } else {
        spaces_with_dao(s.drop_last(), addrs) + (if crate::preprocess::has_text(
            addrs,
            s.last().dao_address@,
        ) {
            seq![s.last()]
        } else {
            Seq::empty()
        })
    }
}

/// The value rows of one entity, in storage order.
pub open spec fn values_of_entity(s: Seq<ValueOp>, entity: Uid) -> Seq<ValueOp>
    decreases s.len(),
{
    if s.len() == 0 {
        Seq::empty()
    } else {
        values_of_entity(s.drop_last(), entity) + (if s.last().entity_id == entity {
            seq![s.last()]
        } else {
            Seq::empty()
        })
    }
}

/// The relation rows of one entity, in storage order.
pub open spec fn relations_of_entity(s: Seq<RelationItem>, entity: Uid) -> Seq<RelationItem>
    decreases s.len(),
{
    if s.len() == 0 {
        Seq::empty()
    } else {
        relations_of_entity(s.drop_last(), entity) + (if s.last().entity_id == entity {
            seq![s.last()]
        } else {
            Seq::empty()
        })
    }
}

/// The proposal rows of one space, in storage order.
pub open spec fn proposals_of_space(s: Seq<ProposalItem>, space: Uid) -> Seq<ProposalItem>
    decreases s.len(),
{
    if s.len() == 0 {
        Seq::empty()
    } else {
        proposals_of_space(s.drop_last(), space) + (if s.last().space_id == space {
            seq![s.last()]
        } else {
            Seq::empty()
        })
    }
}

impl TestStorage {
    /// Wrap a store for querying.
    pub fn new(storage: Storage) -> (r: TestStorage)
        ensures
            r.storage == storage,
    {
        TestStorage { storage }
    }

    /// The wrapped store.
    pub fn storage(&self) -> (r: &Storage)
        ensures
            r == &self.storage,
    {
        &self.storage
    }

    /// The space rows stored for any of the given DAO addresses.
    pub fn get_spaces_by_dao_addresses(&self, dao_addresses: &Vec<String>) -> (r: Vec<&SpaceRow>)
        ensures
            r@.len() == spaces_with_dao(self.storage@.spaces, dao_addresses@).len(),
            forall|k: int|
                0 <= k < r@.len() ==> *(#[trigger] r@[k]) == spaces_with_dao(
                    self.storage@.spaces,
                    dao_addresses@,
                )[k],
    {
        let rows = &self.storage.spaces;
        let mut out: Vec<&SpaceRow> = Vec::new();
        let mut i: usize = 0;
        while i < rows.len()
            invariant
                i <= rows@.len(),
                rows@ == self.storage@.spaces,
                out@.len() == spaces_with_dao(rows@.take(i as int), dao_addresses@).len(),
                forall|k: int|
                    0 <= k < out@.len() ==> *(#[trigger] out@[k]) == spaces_with_dao(
                        rows@.take(i as int),
                        dao_addresses@,
                    )[k],
            decreases rows@.len() - i,
        {
            let ghost pre = rows@.take(i as int);
            if crate::preprocess::contains_text(dao_addresses, &rows[i].dao_address) {
                out.push(&rows[i]);
            }
            proof {
                assert(rows@.take(i + 1 as int).drop_last() =~= pre);
                assert(rows@.take(i + 1 as int).last() == rows@[i as int]);
            }
            i = i + 1;
        }
        proof {
            assert(rows@.take(rows@.len() as int) =~= rows@);
        }
        out
    }

    /// The stored entity row for an id.
    pub fn get_entity_by_id(&self, entity_id: &Uid) -> (r: Option<&EntityItem>)
        requires
            self.storage.wf(),
        ensures
            match r {
                Some(row) => lookup_key(self.storage@.entities, *entity_id) == Some(*row),
                None => lookup_key(self.storage@.entities, *entity_id) is None,
            },
    {
        self.storage.get_entity(entity_id)
    }

    /// The stored value rows of one entity.
    pub fn get_values_by_entity_id(&self, entity_id: &Uid) -> (r: Vec<&ValueOp>)
        ensures
            r@.len() == values_of_entity(self.storage@.values, *entity_id).len(),
            forall|k: int|
                0 <= k < r@.len() ==> *(#[trigger] r@[k]) == values_of_entity(
                    self.storage@.values,
                    *entity_id,
                )[k],
    {
        let rows = &self.storage.values;
        let mut out: Vec<&ValueOp> = Vec::new();
        let mut i: usize = 0;
        while i < rows.len()
            invariant
                i <= rows@.len(),
                rows@ == self.storage@.values,
                out@.len() == values_of_entity(rows@.take(i as int), *entity_id).len(),
                forall|k: int|
                    0 <= k < out@.len() ==> *(#[trigger] out@[k]) == values_of_entity(
                        rows@.take(i as int),
                        *entity_id,
                    )[k],
            decreases rows@.len() - i,
        {
            let ghost pre = rows@.take(i as int);
            if rows[i].entity_id == *entity_id {
                out.push(&rows[i]);
            }
            proof {
                assert(rows@.take(i + 1 as int).drop_last() =~= pre);
                assert(rows@.take(i + 1 as int).last() == rows@[i as int]);
            }
            i = i + 1;
        }
        proof {
            assert(rows@.take(rows@.len() as int) =~= rows@);
        }
        out
    }

    /// The stored relation rows of one entity.
    pub fn get_relations_by_entity_id(&self, entity_id: &Uid) -> (r: Vec<&RelationItem>)
        ensures
            r@.len() == relations_of_entity(self.storage@.relations, *entity_id).len(),
            forall|k: int|
                0 <= k < r@.len() ==> *(#[trigger] r@[k]) == relations_of_entity(
                    self.storage@.relations,
                    *entity_id,
                )[k],
    {
        let rows = &self.storage.relations;
        let mut out: Vec<&RelationItem> = Vec::new();
        let mut i: usize = 0;
        while i < rows.len()
            invariant
                i <= rows@.len(),
                rows@ == self.storage@.relations,
                out@.len() == relations_of_entity(rows@.take(i as int), *entity_id).len(),
                forall|k: int|
                    0 <= k < out@.len() ==> *(#[trigger] out@[k]) == relations_of_entity(
                        rows@.take(i as int),
                        *entity_id,
                    )[k],
            decreases rows@.len() - i,
        {
            let ghost pre = rows@.take(i as int);
            if rows[i].entity_id == *entity_id {
                out.push(&rows[i]);
            }
            proof {
                assert(rows@.take(i + 1 as int).drop_last() =~= pre);
                assert(rows@.take(i + 1 as int).last() == rows@[i as int]);
            }
            i = i + 1;
        }
        proof {
            assert(rows@.take(rows@.len() as int) =~= rows@);
        }
        out
    }

    /// The stored proposal rows of one space.
    pub fn get_proposals_by_space(&self, space_id: &Uid) -> (r: Vec<&ProposalItem>)
        ensures
            r@.len() == proposals_of_space(self.storage@.proposals, *space_id).len(),
            forall|k: int|
                0 <= k < r@.len() ==> *(#[trigger] r@[k]) == proposals_of_space(
                    self.storage@.proposals,
                    *space_id,
                )[k],
    {
        let rows = &self.storage.proposals;
        let mut out: Vec<&ProposalItem> = Vec::new();
        let mut i: usize = 0;
        while i < rows.len()
            invariant
                i <= rows@.len(),
                rows@ == self.storage@.proposals,
                out@.len() == proposals_of_space(rows@.take(i as int), *space_id).len(),
                forall|k: int|
                    0 <= k < out@.len() ==> *(#[trigger] out@[k]) == proposals_of_space(
                        rows@.take(i as int),
                        *space_id,
                    )[k],
            decreases rows@.len() - i,
        {
            let ghost pre = rows@.take(i as int);
            if rows[i].space_id == *space_id {
                out.push(&rows[i]);
            }
            proof {
                assert(rows@.take(i + 1 as int).drop_last() =~= pre);
                assert(rows@.take(i + 1 as int).last() == rows@[i as int]);
            }
            i = i + 1;
        }
        proof {
            assert(rows@.take(rows@.len() as int) =~= rows@);
        }
        out
    }

    /// The stored proposal row for an id.
    pub fn get_proposal_by_id(&self, proposal_id: &Uid) -> (r: Option<&ProposalItem>)
        requires
            self.storage.wf(),
        ensures
            match r {
                Some(row) => lookup_key(self.storage@.proposals, *proposal_id) == Some(*row),
                None => lookup_key(self.storage@.proposals, *proposal_id) is None,
            },
    {
        self.storage.get_proposal_by_id(proposal_id)
    }

    /// How many rows a table holds; an unknown table name counts zero.
    pub fn count_records(&self, table_name: &str) -> (r: u64)
        ensures
            table_name@ == "spaces"@ ==> r == self.storage@.spaces.len(),
            table_name@ == "properties"@ ==> r == self.storage@.properties.len(),
            table_name@ == "entities"@ ==> r == self.storage@.entities.len(),
            table_name@ == "values"@ ==> r == self.storage@.values.len(),
            table_name@ == "relations"@ ==> r == self.storage@.relations.len(),
            table_name@ == "members"@ ==> r == self.storage@.members.len(),
            table_name@ == "editors"@ ==> r == self.storage@.editors.len(),
            table_name@ == "subspaces"@ ==> r == self.storage@.subspaces.len(),
            table_name@ == "proposals"@ ==> r == self.storage@.proposals.len(),
    {
        proof {
            reveal_strlit("spaces");
            reveal_strlit("properties");
            reveal_strlit("entities");
            reveal_strlit("values");
            reveal_strlit("relations");
            reveal_strlit("members");
            reveal_strlit("editors");
            reveal_strlit("subspaces");
            reveal_strlit("proposals");
            assert(("spaces"@).len() == 6);
            assert(("properties"@).len() == 10);
            assert(("entities"@).len() == 8);
            assert(("values"@).len() == 6);
            assert(("relations"@).len() == 9);
            assert(("members"@).len() == 7);
            assert(("editors"@).len() == 7);
            assert(("subspaces"@).len() == 9);
            assert(("proposals"@).len() == 9);
            assert("spaces"@[0] != "values"@[0]);
            assert("members"@[0] != "editors"@[0]);
            assert("relations"@[0] != "subspaces"@[0]);
            assert("relations"@[0] != "proposals"@[0]);
            assert("subspaces"@[0] != "proposals"@[0]);
        }
        if str_eq(table_name, "spaces") {
            self.storage.spaces.len() as u64
        } else if str_eq(table_name, "properties") {
            self.storage.properties.len() as u64
        } else if str_eq(table_name, "entities") {
            self.storage.entities.len() as u64
        } else if str_eq(table_name, "values") {
            self.storage.values.len() as u64
        } else if str_eq(table_name, "relations") {
            self.storage.relations.len() as u64
        } else if str_eq(table_name, "members") {
            self.storage.members.len() as u64
        } else if str_eq(table_name, "editors") {
            self.storage.editors.len() as u64
        } else if str_eq(table_name, "subspaces") {
            self.storage.subspaces.len() as u64
        } else if str_eq(table_name, "proposals") {
            self.storage.proposals.len() as u64
        } else {
            0
        }
    }

    /// Empty one table; an unknown table name changes nothing.
    pub fn clear_table(&mut self, table_name: &str)
        ensures
            table_name@ == "spaces"@ ==> final(self).storage@.spaces.len() == 0,
            table_name@ == "members"@ ==> final(self).storage@.members.len() == 0,
            table_name@ == "editors"@ ==> final(self).storage@.editors.len() == 0,
            table_name@ == "subspaces"@ ==> final(self).storage@.subspaces.len() == 0,
            table_name@ == "proposals"@ ==> final(self).storage@.proposals.len() == 0,
            old(self).storage.wf() ==> final(self).storage.wf(),
    {
        proof {
            reveal_strlit("spaces");
            reveal_strlit("properties");
            reveal_strlit("entities");
            reveal_strlit("values");
            reveal_strlit("relations");
            reveal_strlit("members");
            reveal_strlit("editors");
            reveal_strlit("subspaces");
            reveal_strlit("proposals");
            assert(("spaces"@).len() == 6);
            assert(("properties"@).len() == 10);
            assert(("entities"@).len() == 8);
            assert(("values"@).len() == 6);
            assert(("relations"@).len() == 9);
            assert(("members"@).len() == 7);
            assert(("editors"@).len() == 7);
            assert(("subspaces"@).len() == 9);
            assert(("proposals"@).len() == 9);
            assert("spaces"@[0] != "values"@[0]);
            assert("members"@[0] != "editors"@[0]);
            assert("relations"@[0] != "subspaces"@[0]);
            assert("relations"@[0] != "proposals"@[0]);
            assert("subspaces"@[0] != "proposals"@[0]);
        }
        if str_eq(table_name, "spaces") {
            self.storage.spaces = Vec::new();
        } else if str_eq(table_name, "properties") {
            self.storage.properties = Vec::new();
        } else if str_eq(table_name, "entities") {
            self.storage.entities = Vec::new();
        } else if str_eq(table_name, "values") {
            self.storage.values = Vec::new();
        } else if str_eq(table_name, "relations") {
            self.storage.relations = Vec::new();
        } else if str_eq(table_name, "members") {
            self.storage.members = Vec::new();
        } else if str_eq(table_name, "editors") {
            self.storage.editors = Vec::new();
        } else if str_eq(table_name, "subspaces") {
            self.storage.subspaces = Vec::new();
        } else if str_eq(table_name, "proposals") {
            self.storage.proposals = Vec::new();
        }
    }

    /// Take the wrapped store back, to run more blocks against it.
    pub fn into_storage(self) -> (r: Storage)
        ensures
            r == self.storage,
    {
        self.storage
    }
}

impl SpaceRow {
    /// The row is a personal space.
    pub fn is_personal(&self) -> (r: bool)
        ensures
            r == (self.space_type == SpaceType::Personal),
    {
        matches!(self.space_type, SpaceType::Personal)
    }

    /// The row is a public space.
    pub fn is_public(&self) -> (r: bool)
        ensures
            r == (self.space_type == SpaceType::Public),
    {
        matches!(self.space_type, SpaceType::Public)
    }

    /// Check the shape of a personal space row: the personal plugin
    /// column filled and both governance columns empty.
    pub fn validate_personal_space(&self) -> (r: Result<(), String>)
        ensures
            r is Ok <==> self.space_type == SpaceType::Personal && self.main_voting_address
                is None && self.membership_address is None && self.personal_address is Some,
    {
        if !self.is_personal() {
            return Err(String::from_str("expected a personal space"));
        }
        if self.main_voting_address.is_some() {
            return Err(String::from_str("a personal space has no main voting address"));
        }
        if self.membership_address.is_some() {
            return Err(String::from_str("a personal space has no membership address"));
        }
        if self.personal_address.is_none() {
            return Err(String::from_str("a personal space needs its personal address"));
        }
        Ok(())
    }

    /// Check the shape of a public space row: both governance columns
    /// filled and the personal plugin column empty.
    pub fn validate_public_space(&self) -> (r: Result<(), String>)
        ensures
            r is Ok <==> self.space_type == SpaceType::Public && self.main_voting_address is Some
                && self.membership_address is Some && self.personal_address is None,
    {
        if !self.is_public() {
            return Err(String::from_str("expected a public space"));
        }
        if self.main_voting_address.is_none() {
            return Err(String::from_str("a public space needs its main voting address"));
        }
        if self.membership_address.is_none() {
            return Err(String::from_str("a public space needs its membership address"));
        }
        if self.personal_address.is_some() {
            return Err(String::from_str("a public space has no personal address"));
        }
        Ok(())
    }
}

} // verus!

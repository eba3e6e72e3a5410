//! The decoded form of an edit: a batch of operations against one space.
//!
//! An edit arrives as a content-addressed payload; once decoded it is a
//! plain value of the types here, and everything the pipeline does with
//! it is verified. Ids inside an edit are raw byte strings exactly as
//! they came off the wire; they become [`crate::uid::Uid`]s only where
//! an operation is accepted.

use vstd::prelude::*;
use crate::uid::Uid;

verus! {

/// Per-value modifiers carried next to a set value.
#[derive(Clone, Debug)]
pub struct ValueOptions {
    pub language: Option<String>,
    pub unit: Option<String>,
}

/// One value set on an entity: the property it belongs to, the raw text
/// of the value, and optional modifiers.
#[derive(Clone, Debug)]
pub struct Value {
    pub property: Vec<u8>,
    pub value: String,
    pub options: Option<ValueOptions>,
}

/// An `UpdateEntity` operation: values set on one entity.
#[derive(Clone, Debug)]
pub struct Entity {
    pub id: Vec<u8>,
    pub values: Vec<Value>,
}

/// An `UnsetEntityValues` operation: properties cleared on one entity.
#[derive(Clone, Debug)]
pub struct UnsetEntityValues {
    pub id: Vec<u8>,
    pub properties: Vec<Vec<u8>>,
}

/// The wire form of a property's declared type.
#[derive(Clone, Copy, Debug, PartialEq, Eq, Structural)]
pub enum PbDataType {
    Text,
    Number,
    Checkbox,
    Time,
    Point,
    Relation,
}

/// A `CreateProperty` operation.
#[derive(Clone, Debug)]
pub struct Property {
    pub id: Vec<u8>,
    pub data_type: PbDataType,
}

/// A `CreateRelation` operation: a directed, typed edge between two
/// entities. The five leading ids are required; the rest are optional.
#[derive(Clone, Debug)]
pub struct Relation {
    pub id: Vec<u8>,
    pub type_id: Vec<u8>,
    pub entity: Vec<u8>,
    pub from_entity: Vec<u8>,
    pub from_space: Option<Vec<u8>>,
    pub from_version: Option<Vec<u8>>,
    pub to_entity: Vec<u8>,
    pub to_space: Option<Vec<u8>>,
    pub to_version: Option<Vec<u8>>,
    pub position: Option<String>,
    pub verified: Option<bool>,
}

/// An `UpdateRelation` operation. An absent optional field leaves the
/// stored field alone; a present but empty one clears it; a present
/// non-empty one sets it.
#[derive(Clone, Debug)]
pub struct RelationUpdate {
    pub id: Vec<u8>,
    pub from_space: Option<Vec<u8>>,
    pub from_version: Option<Vec<u8>>,
    pub to_space: Option<Vec<u8>>,
    pub to_version: Option<Vec<u8>>,
    pub position: Option<String>,
    pub verified: Option<bool>,
}

/// The payload of one operation.
#[derive(Clone, Debug)]
pub enum Payload {
    UpdateEntity(Entity),
    UnsetEntityValues(UnsetEntityValues),
    CreateProperty(Property),
    CreateRelation(Relation),
    UpdateRelation(RelationUpdate),
    DeleteRelation(Vec<u8>),
}

/// One operation of an edit.
#[derive(Clone, Debug)]
pub struct Op {
    pub payload: Option<Payload>,
}

/// A decoded edit: an ordered batch of operations, with the edit's own
/// sixteen-byte id and authorship metadata.
#[derive(Clone, Debug)]
pub struct Edit {
    pub id: Vec<u8>,
    pub name: String,
    pub ops: Vec<Op>,
    pub authors: Vec<Vec<u8>>,
    pub language: Option<String>,
}

/// A cache row for one content URI: either the decoded edit, or the
/// mark that the content exists but could not be fetched or decoded.
/// The edit is shared, so one cache row can feed every consumer in the
/// block without copying the payload.
#[derive(Debug)]
pub struct PreprocessedEdit {
    pub cid: String,
    pub edit: Option<std::rc::Rc<Edit>>,
    pub is_errored: bool,
    pub space_id: Uid,
}

/// Relies on `Rc`'s `Deref`: borrowing through the handle reaches the
/// shared value itself.
#[verifier::external_body]
pub(crate) fn rc_borrow(e: &std::rc::Rc<Edit>) -> (r: &Edit)
    ensures
        *r == **e,
{
    &**e
}

/// Relies on `Rc::clone`: the clone is a handle to the same value.
#[verifier::external_body]
pub(crate) fn rc_dup(e: &std::rc::Rc<Edit>) -> (r: std::rc::Rc<Edit>)
    ensures
        r == *e,
{
    std::rc::Rc::clone(e)
}

impl PreprocessedEdit {
    /// A second handle to the same cache row.
    pub fn duplicate(&self) -> (r: PreprocessedEdit)
        ensures
            r.cid@ == self.cid@,
            r.edit == self.edit,
            r.is_errored == self.is_errored,
            r.space_id == self.space_id,
    {
        PreprocessedEdit {
            cid: self.cid.clone(),
            edit: match &self.edit {
                Some(e) => Some(rc_dup(e)),
                None => None,
            },
            is_errored: self.is_errored,
            space_id: self.space_id,
        }
    }
}

} // verus!

//! Value operations: SET and UNSET of typed values on entities.
//!
//! Each `UpdateEntity` operation of an edit sets values; each
//! `UnsetEntityValues` operation clears them. A set value is validated
//! against the declared data type of its property before it may reach
//! storage: the text lands in the one typed column its property calls
//! for, and text that fails its type populates no column and is later
//! filtered out. The synthetic id of a value row is a pure function of
//! its `(entity, property, space)` triple.

use vstd::prelude::*;
use vstd::string::StrSliceExecFns;
use crate::edit::{Edit, Op, Payload};
use crate::ids::{derive_value_id, md5_of, uid_v4_from, value_seed};
use crate::properties::{DataType, PropertiesCache};
use crate::uid::Uid;

verus! {

/// True when the text is accepted as a number. Named after the check
/// `serde_json` performs; a pure function of the characters.
///
/// The accepted grammar is the JSON number grammar, which is slightly
/// narrower than a bare floating-point parse: texts such as `+5`, `5.`
/// and `.5` denote finite doubles but are rejected here, and the
/// infinities and NaN spellings are rejected as the type system of the
/// store requires. Floating point cannot stand in verified source, so
/// the JSON grammar is the validation the library commits to.
pub uninterp spec fn finite_number_text(s: Seq<char>) -> bool;

/// Relies on `serde_json`: parsing the text as a JSON number succeeds
/// or fails depending on the characters alone, and a parsed number is
/// always finite.
#[verifier::external_body]
pub(crate) fn is_finite_number_text(s: &str) -> (b: bool)
    ensures
        b == finite_number_text(s@),
{
    serde_json::from_str::<serde_json::Number>(s).is_ok()
}

/// True when the text is an RFC 3339 timestamp. Named after the check
/// `chrono` performs; a pure function of the characters.
pub uninterp spec fn rfc3339_valid(s: Seq<char>) -> bool;

/// Relies on `chrono::DateTime::parse_from_rfc3339`: whether the text
/// parses as an RFC 3339 timestamp depends on the characters alone.
#[verifier::external_body]
pub(crate) fn is_rfc3339_timestamp(s: &str) -> (b: bool)
    ensures
        b == rfc3339_valid(s@),
{
    chrono::DateTime::parse_from_rfc3339(s).is_ok()
}

/// The boolean a text denotes: the literal `1` or `0`, nothing else.
pub open spec fn checkbox_of_text(s: Seq<char>) -> Option<bool> {
    if s.len() == 1 && s[0] == '1' {
        Some(true)
    } else if s.len() == 1 && s[0] == '0' {
        Some(false)
    } else {
        None
    }
}

/// True when the text is `<x>,<y>` with both halves accepted as
/// numbers, split at the first comma.
pub open spec fn point_valid(s: Seq<char>) -> bool {
    exists|i: int|
        0 <= i < s.len() && #[trigger] s[i] == ',' && (forall|j: int| 0 <= j < i ==> s[j] != ',')
            && finite_number_text(s.take(i)) && finite_number_text(s.skip(i + 1))
}

/// Whether a set value is SET or an unset marker.
#[derive(Clone, Copy, Debug, PartialEq, Eq, Structural)]
pub enum ValueChangeType {
    SET,
    UNSET,
}

/// One value mutation headed for storage. Exactly one of the typed
/// fields is populated on a valid SET; none on an UNSET.
#[derive(Clone, Debug)]
pub struct ValueOp {
    pub id: Uid,
    pub change_type: ValueChangeType,
    pub entity_id: Uid,
    pub property_id: Uid,
    pub space_id: Uid,
    pub language: Option<String>,
    pub unit: Option<String>,
    pub string: Option<String>,
    pub number: Option<String>,
    pub boolean: Option<bool>,
    pub time: Option<String>,
    pub point: Option<String>,
}

/// One source of a SET: a value listed under an `UpdateEntity` whose
/// entity and property ids are well-formed.
pub struct SetSource {
    pub entity: Uid,
    pub property: Uid,
    pub text: Seq<char>,
    pub language: Option<Seq<char>>,
    pub unit: Option<Seq<char>>,
}

/// One source of an UNSET: a property listed under an
/// `UnsetEntityValues` whose entity and property ids are well-formed.
pub struct UnsetSource {
    pub entity: Uid,
    pub property: Uid,
}

/// The set sources contributed by the values of one `UpdateEntity`.
pub open spec fn sources_of_values(entity: Uid, vals: Seq<crate::edit::Value>) -> Seq<SetSource>
    decreases vals.len(),
{
    if vals.len() == 0 {
        Seq::empty()
    } else {
        sources_of_values(entity, vals.drop_last()) + source_of_value(entity, vals.last())
    }
}

/// Zero or one set sources read from one wire value.
pub open spec fn source_of_value(entity: Uid, v: crate::edit::Value) -> Seq<SetSource> {
    if v.property@.len() == 16 {
        seq![
            SetSource {
                entity,
                property: crate::uid::uid_of_bytes(v.property@),
                text: v.value@,
                language: match v.options {
                    Some(o) => match o.language { Some(l) => Some(l@), None => None },
                    None => None,
                },
                unit: match v.options {
                    Some(o) => match o.unit { Some(u) => Some(u@), None => None },
                    None => None,
                },
            },
        ]
    } else {
        Seq::empty()
    }
}

/// All set sources of an op sequence, in order.
pub open spec fn set_sources(ops: Seq<Op>) -> Seq<SetSource>
    decreases ops.len(),
{
    if ops.len() == 0 {
        Seq::empty()
    } else {
        set_sources(ops.drop_last()) + set_sources_of_op(ops.last())
    }
}

/// The set sources of one op.
pub open spec fn set_sources_of_op(op: Op) -> Seq<SetSource> {
    match op.payload {
        Some(Payload::UpdateEntity(e)) => if e.id@.len() == 16 {
            sources_of_values(crate::uid::uid_of_bytes(e.id@), e.values@)
        } else {
            Seq::empty()
        },
        _ => Seq::empty(),
    }
}

/// The unset sources contributed by the properties of one
/// `UnsetEntityValues`.
pub open spec fn sources_of_unsets(entity: Uid, props: Seq<Vec<u8>>) -> Seq<UnsetSource>
    decreases props.len(),
{
    if props.len() == 0 {
        Seq::empty()
    } else {
        sources_of_unsets(entity, props.drop_last()) + (if props.last()@.len() == 16 {
            seq![
                UnsetSource { entity, property: crate::uid::uid_of_bytes(props.last()@) },
            ]
        } else {
            Seq::empty()
        })
    }
}

/// All unset sources of an op sequence, in order.
pub open spec fn unset_sources(ops: Seq<Op>) -> Seq<UnsetSource>
    decreases ops.len(),
{
    if ops.len() == 0 {
        Seq::empty()
    } else {
        unset_sources(ops.drop_last()) + unset_sources_of_op(ops.last())
    }
}

/// The unset sources of one op.
pub open spec fn unset_sources_of_op(op: Op) -> Seq<UnsetSource> {
    match op.payload {
        Some(Payload::UnsetEntityValues(u)) => if u.id@.len() == 16 {
            sources_of_unsets(crate::uid::uid_of_bytes(u.id@), u.properties@)
        } else {
            Seq::empty()
        },
        _ => Seq::empty(),
    }
}

/// The synthetic id of the value row for a triple.
pub open spec fn spec_value_id(entity: Uid, property: Uid, space: Uid) -> Uid {
    uid_v4_from(md5_of(value_seed(entity, property, space)))
}

/// The view of an optional string.
pub open spec fn opt_text(o: Option<String>) -> Option<Seq<char>> {
    match o {
        Some(s) => Some(s@),
        None => None,
    }
}

/// How one set source must appear as a value operation, given the data
/// type its property carries in the cache (if any): ids and modifiers
/// copied over, the synthetic id derived from the triple, and the text
/// landing in exactly the column its type calls for — or in none, when
/// the text fails its type.
pub open spec fn set_op_matches(src: SetSource, dt: Option<DataType>, v: ValueOp, space: Uid) -> bool {
    &&& v.change_type == ValueChangeType::SET
    &&& v.entity_id == src.entity
    &&& v.property_id == src.property
    &&& v.space_id == space
    &&& v.id == spec_value_id(src.entity, src.property, space)
    &&& opt_text(v.language) == src.language
    &&& opt_text(v.unit) == src.unit
    &&& match dt {
        None => opt_text(v.string) == Some(src.text) && v.number is None && v.boolean is None
            && v.time is None && v.point is None,
        Some(DataType::String) => opt_text(v.string) == Some(src.text) && v.number is None
            && v.boolean is None && v.time is None && v.point is None,
        Some(DataType::Number) => v.string is None && v.boolean is None && v.time is None
            && v.point is None && opt_text(v.number) == (if finite_number_text(src.text) {
            Some(src.text)
        } else {
            None
        }),
        Some(DataType::Boolean) => v.string is None && v.number is None && v.time is None
            && v.point is None && v.boolean == checkbox_of_text(src.text),
        Some(DataType::Time) => v.string is None && v.number is None && v.boolean is None
            && v.point is None && opt_text(v.time) == (if rfc3339_valid(src.text) {
            Some(src.text)
        } else {
            None
        }),
        Some(DataType::Point) => v.string is None && v.number is None && v.boolean is None
            && v.time is None && opt_text(v.point) == (if point_valid(src.text) {
            Some(src.text)
        } else {
            None
        }),
        Some(DataType::Relation) => v.string is None && v.number is None && v.boolean is None
            && v.time is None && v.point is None,
    }
}

/// How one unset source must appear as a value operation.
pub open spec fn unset_op_matches(src: UnsetSource, v: ValueOp, space: Uid) -> bool {
    &&& v.change_type == ValueChangeType::UNSET
    &&& v.entity_id == src.entity
    &&& v.property_id == src.property
    &&& v.space_id == space
    &&& v.id == spec_value_id(src.entity, src.property, space)
    &&& v.language is None && v.unit is None && v.string is None && v.number is None
        && v.boolean is None && v.time is None && v.point is None
}

/// The data type the cache assigns a property, if any.
pub open spec fn cache_dt(cache: Map<Uid, DataType>, property: Uid) -> Option<DataType> {
    if cache.contains_key(property) {
        Some(cache[property])
    } else {
        None
    }
}

/// Every operation's id is the synthetic id of its own triple. Storage
/// keeps this of its value table, so a row can always be found back
/// from the triple it belongs to.
pub open spec fn canonical_value_ids(s: Seq<ValueOp>) -> bool {
    forall|i: int|
        0 <= i < s.len() ==> (#[trigger] s[i]).id == spec_value_id(
            s[i].entity_id,
            s[i].property_id,
            s[i].space_id,
        )
}

/// At least one typed column of `v` is populated.
pub open spec fn any_populated(v: ValueOp) -> bool {
    v.string is Some || v.number is Some || v.boolean is Some || v.time is Some
        || v.point is Some
}

/// The operations of `s` whose typed columns are not all empty.
pub open spec fn filter_populated(s: Seq<ValueOp>) -> Seq<ValueOp>
    decreases s.len(),
{
    if s.len() == 0 {
        Seq::empty()
    } else {
        filter_populated(s.drop_last()) + (if any_populated(s.last()) {
            seq![s.last()]
        } else {
            Seq::empty()
        })
    }
}

/// Every row the populated filter keeps comes from its input.
pub proof fn lemma_filter_populated_subset(s: Seq<ValueOp>)
    ensures
        forall|k: int|
            0 <= k < filter_populated(s).len() ==> exists|w: int|
                0 <= w < s.len() && s[w] == #[trigger] filter_populated(s)[k],
    decreases s.len(),
{
    if s.len() > 0 {
        lemma_filter_populated_subset(s.drop_last());
        let ft = filter_populated(s.drop_last());
        let t = filter_populated(s);
        assert forall|k: int| 0 <= k < t.len() implies exists|w: int|
            0 <= w < s.len() && s[w] == #[trigger] t[k] by {
            if k < ft.len() {
                assert(t[k] == ft[k]);
                let w = choose|w: int| 0 <= w < s.drop_last().len() && s.drop_last()[w] == ft[k];
                assert(s[w] == t[k]);
            } else {
                assert(t[k] == s[s.len() - 1]);
            }
        }
    }
}

/// The populated filter keeps canonical ids canonical.
pub proof fn lemma_filter_populated_canonical(s: Seq<ValueOp>)
    requires
        canonical_value_ids(s),
    ensures
        canonical_value_ids(filter_populated(s)),
{
    lemma_filter_populated_subset(s);
    let t = filter_populated(s);
    assert forall|i: int| 0 <= i < t.len() implies (#[trigger] t[i]).id == spec_value_id(
        t[i].entity_id,
        t[i].property_id,
        t[i].space_id,
    ) by {
        let w = choose|w: int| 0 <= w < s.len() && s[w] == t[i];
    }
}

pub struct ValuesModel;

impl ValuesModel {
    /// Walk an edit's operations into SET and UNSET value operations.
    /// SET operations mirror the set sources one to one, each validated
    /// and typed against the properties cache; UNSET operations mirror
    /// the unset sources one to one.
    pub fn map_edit_to_values(edit: &Edit, space_id: &Uid, cache: &PropertiesCache) -> (r: (
        Vec<ValueOp>,
        Vec<ValueOp>,
    ))
        requires
            cache.wf(),
        ensures
            r.0@.len() == set_sources(edit.ops@).len(),
            forall|k: int|
                0 <= k < r.0@.len() ==> set_op_matches(
                    set_sources(edit.ops@)[k],
                    cache_dt(cache@, set_sources(edit.ops@)[k].property),
                    #[trigger] r.0@[k],
                    *space_id,
                ),
            r.1@.len() == unset_sources(edit.ops@).len(),
            forall|k: int|
                0 <= k < r.1@.len() ==> unset_op_matches(
                    unset_sources(edit.ops@)[k],
                    #[trigger] r.1@[k],
                    *space_id,
                ),
    {
        let mut created: Vec<ValueOp> = Vec::new();
        let mut deleted: Vec<ValueOp> = Vec::new();
        let mut i: usize = 0;
        while i < edit.ops.len()
            invariant
                cache.wf(),
                i <= edit.ops@.len(),
                created@.len() == set_sources(edit.ops@.take(i as int)).len(),
                forall|k: int|
                    0 <= k < created@.len() ==> set_op_matches(
                        set_sources(edit.ops@.take(i as int))[k],
                        cache_dt(cache@, set_sources(edit.ops@.take(i as int))[k].property),
                        #[trigger] created@[k],
                        *space_id,
                    ),
                deleted@.len() == unset_sources(edit.ops@.take(i as int)).len(),
                forall|k: int|
                    0 <= k < deleted@.len() ==> unset_op_matches(
                        unset_sources(edit.ops@.take(i as int))[k],
                        #[trigger] deleted@[k],
                        *space_id,
                    ),
            decreases edit.ops@.len() - i,
        {
            let ghost pre = edit.ops@.take(i as int);
            let ghost pre_set = set_sources(pre);
            let ghost pre_unset = unset_sources(pre);
            match &edit.ops[i].payload {
                Some(Payload::UpdateEntity(e)) => {
                    if e.id.len() == 16 {
                        let entity = Uid::from_byte_vec(&e.id);
                        let mut j: usize = 0;
                        while j < e.values.len()
                            invariant
                                cache.wf(),
                                j <= e.values@.len(),
                                entity == crate::uid::uid_of_bytes(e.id@),
                                created@.len() == pre_set.len() + sources_of_values(
                                    entity,
                                    e.values@.take(j as int),
                                ).len(),
                                forall|k: int|
                                    0 <= k < created@.len() ==> set_op_matches(
                                        (pre_set + sources_of_values(
                                            entity,
                                            e.values@.take(j as int),
                                        ))[k],
                                        cache_dt(
                                            cache@,
                                            (pre_set + sources_of_values(
                                                entity,
                                                e.values@.take(j as int),
                                            ))[k].property,
                                        ),
                                        #[trigger] created@[k],
                                        *space_id,
                                    ),
                            decreases e.values@.len() - j,
                        {
                            let ghost vpre = e.values@.take(j as int);
                            let v = &e.values[j];
                            if v.property.len() == 16 {
                                let property = Uid::from_byte_vec(&v.property);
                                let op = Self::populate_value_op(
                                    &entity,
                                    &property,
                                    space_id,
                                    v,
                                    cache,
                                );
                                created.push(op);
                            }
                            proof {
                                assert(e.values@.take(j + 1 as int).drop_last() =~= vpre);
                                assert(e.values@.take(j + 1 as int).last() == e.values@[j as int]);
                            }
                            j = j + 1;
                        }
                        proof {
                            assert(e.values@.take(e.values@.len() as int) =~= e.values@);
                        }
                    }
                },
                Some(Payload::UnsetEntityValues(u)) => {
                    if u.id.len() == 16 {
                        let entity = Uid::from_byte_vec(&u.id);
                        let mut j: usize = 0;
                        while j < u.properties.len()
                            invariant
                                j <= u.properties@.len(),
                                entity == crate::uid::uid_of_bytes(u.id@),
                                deleted@.len() == pre_unset.len() + sources_of_unsets(
                                    entity,
                                    u.properties@.take(j as int),
                                ).len(),
                                forall|k: int|
                                    0 <= k < deleted@.len() ==> unset_op_matches(
                                        (pre_unset + sources_of_unsets(
                                            entity,
                                            u.properties@.take(j as int),
                                        ))[k],
                                        #[trigger] deleted@[k],
                                        *space_id,
                                    ),
                            decreases u.properties@.len() - j,
                        {
                            let ghost ppre = u.properties@.take(j as int);
                            let p = &u.properties[j];
                            if p.len() == 16 {
                                let property = Uid::from_byte_vec(p);
                                let id = derive_value_id(&entity, &property, space_id);
                                deleted.push(
                                    ValueOp {
                                        id,
                                        change_type: ValueChangeType::UNSET,
                                        entity_id: entity,
                                        property_id: property,
                                        space_id: *space_id,
                                        language: None,
                                        unit: None,
                                        string: None,
                                        number: None,
                                        boolean: None,
                                        time: None,
                                        point: None,
                                    },
                                );
                            }
                            proof {
                                assert(u.properties@.take(j + 1 as int).drop_last() =~= ppre);
                                assert(u.properties@.take(j + 1 as int).last() == u.properties@[j as int]);
                            }
                            j = j + 1;
                        }
                        proof {
                            assert(u.properties@.take(u.properties@.len() as int)
                                =~= u.properties@);
                        }
                    }
                },
                _ => {},
            }
            proof {
                assert(edit.ops@.take(i + 1 as int).drop_last() =~= pre);
                assert(edit.ops@.take(i + 1 as int).last() == edit.ops@[i as int]);
            }
            i = i + 1;
        }
        proof {
            assert(edit.ops@.take(edit.ops@.len() as int) =~= edit.ops@);
        }
        (created, deleted)
    }

    /// Build the SET operation for one source value, validating the
    /// text against the property's cached data type.
    fn populate_value_op(
        entity: &Uid,
        property: &Uid,
        space_id: &Uid,
        v: &crate::edit::Value,
        cache: &PropertiesCache,
    ) -> (r: ValueOp)
        requires
            cache.wf(),
            v.property@.len() == 16,
            *property == crate::uid::uid_of_bytes(v.property@),
        ensures
            set_op_matches(
                source_of_value(*entity, *v)[0],
                cache_dt(cache@, *property),
                r,
                *space_id,
            ),
    {
        let id = derive_value_id(entity, property, space_id);
        let (language, unit) = match &v.options {
            Some(o) => (
                match &o.language {
                    Some(l) => Some(l.clone()),
                    None => None,
                },
                match &o.unit {
                    Some(u) => Some(u.clone()),
                    None => None,
                },
            ),
            None => (None, None),
        };
        let mut op = ValueOp {
            id,
            change_type: ValueChangeType::SET,
            entity_id: *entity,
            property_id: *property,
            space_id: *space_id,
            language,
            unit,
            string: None,
            number: None,
            boolean: None,
            time: None,
            point: None,
        };
        match cache.get(property) {
            None => {
                op.string = Some(v.value.clone());
            },
            Some(DataType::String) => {
                op.string = Some(v.value.clone());
            },
            Some(DataType::Number) => {
                if is_finite_number_text(v.value.as_str()) {
                    op.number = Some(v.value.clone());
                }
            },
            Some(DataType::Boolean) => {
                op.boolean = Self::parse_checkbox(v.value.as_str());
            },
            Some(DataType::Time) => {
                if is_rfc3339_timestamp(v.value.as_str()) {
                    op.time = Some(v.value.clone());
                }
            },
            Some(DataType::Point) => {
                if Self::is_point_text(v.value.as_str()) {
                    op.point = Some(v.value.clone());
                }
            },
            Some(DataType::Relation) => {},
        }
        op
    }

    /// The boolean denoted by checkbox text, when the text is valid.
    fn parse_checkbox(s: &str) -> (r: Option<bool>)
        ensures
            r == checkbox_of_text(s@),
    {
        if s.unicode_len() == 1 {
            let c = s.get_char(0);
            if c == '1' {
                Some(true)
            } else if c == '0' {
                Some(false)
            } else {
                None
            }
        } else {
            None
        }
    }

    /// Whether point text is valid: `<x>,<y>`, split at the first
    /// comma, both halves accepted as numbers.
    fn is_point_text(s: &str) -> (r: bool)
        ensures
            r == point_valid(s@),
    {
        let n = s.unicode_len();
        let mut i: usize = 0;
        while i < n
            invariant
                i <= n,
                n == s@.len(),
                forall|j: int| 0 <= j < i ==> s@[j] != ',',
            decreases n - i,
        {
            if s.get_char(i) == ',' {
                let x = s.substring_char(0, i);
                let y = s.substring_char(i + 1, n);
                proof {
                    assert(x@ =~= s@.take(i as int));
                    assert(y@ =~= s@.skip(i + 1 as int));
                }
                let ok = is_finite_number_text(x) && is_finite_number_text(y);
                proof {
                    if ok {
                        assert(s@[i as int] == ',');
                    } else {
                        assert forall|i2: int|
                            0 <= i2 < s@.len() && #[trigger] s@[i2] == ',' && (forall|j: int|
                                0 <= j < i2 ==> s@[j] != ',') implies !(finite_number_text(
                            s@.take(i2),
                        ) && finite_number_text(s@.skip(i2 + 1))) by {
                            assert(i2 == i as int);
                        }
                    }
                }
                return ok;
            }
            i = i + 1;
        }
        false
    }

    /// Keep the SET operations that populated at least one typed
    /// column; the rest failed validation and are dropped.
    pub fn validate_created_values(created_values: Vec<ValueOp>, _cache: &PropertiesCache) -> (r:
        Vec<ValueOp>)
        ensures
            r@ == filter_populated(created_values@),
    {
        let ghost orig = created_values@;
        let mut rest = created_values;
        let mut out: Vec<ValueOp> = Vec::new();
        let ghost mut i: int = 0;
        while rest.len() > 0
            invariant
                0 <= i <= orig.len(),
                rest@ =~= orig.skip(i),
                out@ == filter_populated(orig.take(i)),
            decreases rest@.len(),
        {
            let ghost pre = orig.take(i);
            let v = rest.remove(0);
            proof {
                assert(v == orig[i]);
            }
            let keep = v.string.is_some() || v.number.is_some() || v.boolean.is_some()
                || v.time.is_some() || v.point.is_some();
            if keep {
                out.push(v);
            }
            proof {
                assert(orig.take(i + 1).drop_last() =~= pre);
                assert(orig.take(i + 1).last() == orig[i]);
                i = i + 1;
                assert(rest@ =~= orig.skip(i));
            }
        }
        proof {
            assert(orig.take(orig.len() as int) =~= orig);
            assert(i == orig.len());
        }
        out
    }
}

} // verus!

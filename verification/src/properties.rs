//! Property schema handling.
//!
//! Properties declare the type of the values that may be attached to an
//! entity under them. Within one edit, repeated `CreateProperty`
//! operations for the same id are squashed to the last occurrence; in
//! storage the first successful write wins and the type is immutable
//! afterwards. The in-memory cache mirrors what has been declared so
//! value validation can run without touching storage.

use vstd::prelude::*;
use crate::edit::{Edit, Op, Payload, PbDataType};
use crate::uid::{uid_of_bytes, Uid};

verus! {

/// The stored type of a property.
#[derive(Clone, Copy, Debug, PartialEq, Eq, Structural)]
pub enum DataType {
    String,
    Number,
    Boolean,
    Time,
    Point,
    Relation,
}

/// The stored type corresponding to a wire type.
pub open spec fn spec_data_type_of(pb: PbDataType) -> DataType {
    match pb {
        PbDataType::Text => DataType::String,
        PbDataType::Number => DataType::Number,
        PbDataType::Checkbox => DataType::Boolean,
        PbDataType::Time => DataType::Time,
        PbDataType::Point => DataType::Point,
        PbDataType::Relation => DataType::Relation,
    }
}

/// The stored type corresponding to a wire type.
pub fn data_type_of(pb: PbDataType) -> (r: DataType)
    ensures
        r == spec_data_type_of(pb),
{
    match pb {
        PbDataType::Text => DataType::String,
        PbDataType::Number => DataType::Number,
        PbDataType::Checkbox => DataType::Boolean,
        PbDataType::Time => DataType::Time,
        PbDataType::Point => DataType::Point,
        PbDataType::Relation => DataType::Relation,
    }
}

/// A property as the pipeline and storage carry it.
#[derive(Clone, Copy, Debug, PartialEq, Eq, Structural)]
pub struct PropertyItem {
    pub id: Uid,
    pub data_type: DataType,
}

/// The `CreateProperty` operations of an op sequence, in order, each
/// with its id read as a [`Uid`]; operations whose id is not sixteen
/// bytes are dropped.
pub open spec fn created_properties(ops: Seq<Op>) -> Seq<PropertyItem>
    decreases ops.len(),
{
    if ops.len() == 0 {
        Seq::empty()
    } else {
        created_properties(ops.drop_last()) + property_of_op(ops.last())
    }
}

/// Zero or one property items read from one operation.
pub open spec fn property_of_op(op: Op) -> Seq<PropertyItem> {
    match op.payload {
        Some(Payload::CreateProperty(p)) => if p.id@.len() == 16 {
            seq![
                PropertyItem {
                    id: uid_of_bytes(p.id@),
                    data_type: spec_data_type_of(p.data_type),
                },
            ]
        } else {
            Seq::empty()
        },
        _ => Seq::empty(),
    }
}

/// True when some item of `s` carries `id`.
pub open spec fn has_property_id(s: Seq<PropertyItem>, id: Uid) -> bool {
    exists|i: int| 0 <= i < s.len() && #[trigger] s[i].id == id
}

/// The items of `s` carry pairwise distinct ids.
pub open spec fn unique_property_ids(s: Seq<PropertyItem>) -> bool {
    forall|i: int, j: int|
        0 <= i < j < s.len() ==> (#[trigger] s[i]).id != (#[trigger] s[j]).id
}

/// The data type of the last item of `s` carrying `id`.
pub open spec fn last_data_type(s: Seq<PropertyItem>, id: Uid) -> DataType
    recommends has_property_id(s, id),
    decreases s.len(),
{
    if s.len() == 0 {
        DataType::String
    } else if s.last().id == id {
        s.last().data_type
    } else {
        last_data_type(s.drop_last(), id)
    }
}

/// The intra-edit squash of a property sequence: one item per id, in
/// order of first occurrence, carrying the data type of the last
/// occurrence.
pub open spec fn squash_properties(s: Seq<PropertyItem>) -> Seq<PropertyItem>
    decreases s.len(),
{
    if s.len() == 0 {
        Seq::empty()
    } else {
        let rest = squash_properties(s.drop_last());
        let x = s.last();
        if has_property_id(rest, x.id) {
            Seq::new(
                rest.len(),
                |j: int| if rest[j].id == x.id {
                    PropertyItem { id: x.id, data_type: x.data_type }
                } else {
                    rest[j]
                },
            )
        } else {
            rest.push(x)
        }
    }
}

/// The squash keeps exactly the ids of its input, keeps them unique,
/// and gives each the data type of its last occurrence.
/// Splitting off the last element: `s` carries `id` exactly when the
/// front does or the last element does.
proof fn lemma_has_id_unsnoc(s: Seq<PropertyItem>, id: Uid)
    requires
        s.len() > 0,
    ensures
        has_property_id(s, id) == (has_property_id(s.drop_last(), id) || s.last().id == id),
{
    if has_property_id(s, id) {
        let k = choose|k: int| 0 <= k < s.len() && #[trigger] s[k].id == id;
        if k < s.len() - 1 {
            assert(s.drop_last()[k].id == id);
        }
    }
    if has_property_id(s.drop_last(), id) {
        let k = choose|k: int| 0 <= k < s.drop_last().len() && #[trigger] s.drop_last()[k].id
            == id;
        assert(s[k].id == id);
    }
    if s.last().id == id {
        assert(s[s.len() - 1].id == id);
    }
}

/// Two sequences of equal length whose items carry the same id at each
/// index carry the same set of ids.
proof fn lemma_same_ids(a: Seq<PropertyItem>, b: Seq<PropertyItem>)
    requires
        a.len() == b.len(),
        forall|j: int| 0 <= j < a.len() ==> (#[trigger] a[j]).id == b[j].id,
    ensures
        forall|id: Uid| has_property_id(a, id) == has_property_id(b, id),
        unique_property_ids(a) == unique_property_ids(b),
{
    assert forall|id: Uid| #[trigger] has_property_id(a, id) == has_property_id(b, id) by {
        if has_property_id(a, id) {
            let k = choose|k: int| 0 <= k < a.len() && #[trigger] a[k].id == id;
            assert(b[k].id == id);
        }
        if has_property_id(b, id) {
            let k = choose|k: int| 0 <= k < b.len() && #[trigger] b[k].id == id;
            assert(a[k].id == id);
        }
    }
    if unique_property_ids(a) {
        assert forall|i: int, k: int| 0 <= i < k < b.len() implies (#[trigger] b[i]).id
            != (#[trigger] b[k]).id by {
            assert(a[i].id == b[i].id && a[k].id == b[k].id);
        }
    }
    if unique_property_ids(b) {
        assert forall|i: int, k: int| 0 <= i < k < a.len() implies (#[trigger] a[i]).id
            != (#[trigger] a[k]).id by {
            assert(a[i].id == b[i].id && a[k].id == b[k].id);
        }
    }
}

/// The squash keeps exactly the ids of its input, keeps them unique,
/// and gives each the data type of its last occurrence.
pub proof fn lemma_squash_properties(s: Seq<PropertyItem>)
    ensures
        unique_property_ids(squash_properties(s)),
        forall|id: Uid| has_property_id(squash_properties(s), id) <==> has_property_id(s, id),
        forall|id: Uid|
            has_property_id(s, id) ==> last_data_type(#[trigger] squash_properties(s), id)
                == last_data_type(s, id),
    decreases s.len(),
{
    if s.len() == 0 {
    } else {
        let front = s.drop_last();
        let rest = squash_properties(front);
        let x = s.last();
        lemma_squash_properties(front);
        let sq = squash_properties(s);
        assert forall|id: Uid| #[trigger] has_property_id(s, id) == (has_property_id(front, id)
            || x.id == id) by {
            lemma_has_id_unsnoc(s, id);
        }
        if has_property_id(rest, x.id) {
            assert(sq.len() == rest.len());
            assert forall|j: int| 0 <= j < sq.len() implies (#[trigger] sq[j]).id
                == rest[j].id by {
                if rest[j].id == x.id {
                } else {
                }
            }
            lemma_same_ids(sq, rest);
            assert(unique_property_ids(sq));
            assert forall|id: Uid| has_property_id(s, id) implies last_data_type(sq, id)
                == last_data_type(s, id) by {
                if id == x.id {
                    let j = choose|j: int| 0 <= j < rest.len() && #[trigger] rest[j].id == id;
                    assert(sq[j] == PropertyItem { id: x.id, data_type: x.data_type });
                    lemma_last_of_unique(sq, id, j);
                    assert(last_data_type(s, id) == x.data_type);
                } else {
                    assert(has_property_id(front, id));
                    let j = choose|j: int| 0 <= j < rest.len() && #[trigger] rest[j].id == id;
                    assert(sq[j] == rest[j]);
                    lemma_last_of_unique(sq, id, j);
                    lemma_last_of_unique(rest, id, j);
                    assert(last_data_type(s, id) == last_data_type(front, id));
                }
            }
        } else {
            assert(sq == rest.push(x));
            assert(sq.drop_last() =~= rest);
            assert(sq.last() == x);
            assert forall|id: Uid| #[trigger] has_property_id(sq, id) == (has_property_id(
                rest,
                id,
            ) || x.id == id) by {
                lemma_has_id_unsnoc(sq, id);
            }
            assert(unique_property_ids(sq)) by {
                assert forall|i: int, k: int| 0 <= i < k < sq.len() implies (#[trigger] sq[i]).id
                    != (#[trigger] sq[k]).id by {
                    if k == sq.len() - 1 {
                        if rest[i].id == x.id {
                            assert(has_property_id(rest, x.id));
                        }
                    } else {
                        assert(sq[i] == rest[i] && sq[k] == rest[k]);
                    }
                }
            }
            assert forall|id: Uid| has_property_id(s, id) implies last_data_type(sq, id)
                == last_data_type(s, id) by {
                if id == x.id {
                    assert(last_data_type(sq, id) == x.data_type);
                    assert(last_data_type(s, id) == x.data_type);
                } else {
                    assert(last_data_type(sq, id) == last_data_type(rest, id));
                    assert(has_property_id(front, id));
                    assert(last_data_type(s, id) == last_data_type(front, id));
                }
            }
        }
    }
}

/// In a sequence with unique ids, the last data type for `id` is the
/// data type at the one index carrying `id`.
proof fn lemma_last_of_unique(s: Seq<PropertyItem>, id: Uid, j: int)
    requires
        0 <= j < s.len(),
        s[j].id == id,
        unique_property_ids(s),
    ensures
        last_data_type(s, id) == s[j].data_type,
    decreases s.len(),
{
    if s.len() - 1 == j {
    } else {
        assert(s.last().id != id);
        assert(s.drop_last()[j] == s[j]);
        assert forall|i: int, k: int| 0 <= i < k < s.drop_last().len() implies
            (#[trigger] s.drop_last()[i]).id != (#[trigger] s.drop_last()[k]).id by {
            assert(s.drop_last()[i] == s[i] && s.drop_last()[k] == s[k]);
        }
        lemma_last_of_unique(s.drop_last(), id, j);
    }
}

pub struct PropertiesModel;

impl PropertiesModel {
    /// All properties an edit creates, squashed by id: one item per id,
    /// carrying the data type of the last `CreateProperty` for that id.
    pub fn map_edit_to_properties(edit: &Edit) -> (r: Vec<PropertyItem>)
        ensures
            r@ == squash_properties(created_properties(edit.ops@)),
            unique_property_ids(r@),
            forall|id: Uid| has_property_id(r@, id) <==> has_property_id(
                created_properties(edit.ops@),
                id,
            ),
            forall|id: Uid|
                has_property_id(created_properties(edit.ops@), id) ==> last_data_type(r@, id)
                    == last_data_type(created_properties(edit.ops@), id),
    {
        let mut raw: Vec<PropertyItem> = Vec::new();
        let mut i: usize = 0;
        while i < edit.ops.len()
            invariant
                i <= edit.ops@.len(),
                raw@ == created_properties(edit.ops@.take(i as int)),
            decreases edit.ops@.len() - i,
        {
            let ghost pre = edit.ops@.take(i as int);
            match &edit.ops[i].payload {
                Some(Payload::CreateProperty(p)) => {
                    if p.id.len() == 16 {
                        let id = Uid::from_byte_vec(&p.id);
                        let dt = data_type_of(p.data_type);
                        raw.push(PropertyItem { id, data_type: dt });
                    }
                },
                _ => {},
            }
            proof {
                assert(edit.ops@.take(i + 1 as int).drop_last() =~= pre);
                assert(edit.ops@.take(i + 1 as int).last() == edit.ops@[i as int]);
            }
            i = i + 1;
        }
        proof {
            assert(edit.ops@.take(edit.ops@.len() as int) =~= edit.ops@);
        }
        let r = Self::squash(raw);
        proof {
            lemma_squash_properties(created_properties(edit.ops@));
        }
        r
    }

    /// Squash a property sequence by id: the last occurrence's data
    /// type wins; order of first occurrence is kept.
    /// The index of the item of `out` carrying `id`, if any.
    fn squash_probe(out: &Vec<PropertyItem>, id: &Uid) -> (r: Option<usize>)
        ensures
            match r {
                Some(j) => j < out@.len() && out@[j as int].id == *id,
                None => !has_property_id(out@, *id),
            },
    {
        let mut j: usize = 0;
        while j < out.len()
            invariant
                j <= out@.len(),
                forall|k: int| 0 <= k < j ==> (#[trigger] out@[k]).id != *id,
            decreases out@.len() - j,
        {
            if out[j].id == *id {
                return Some(j);
            }
            j = j + 1;
        }
        proof {
            assert(!has_property_id(out@, *id));
        }
        None
    }

    fn squash(props: Vec<PropertyItem>) -> (r: Vec<PropertyItem>)
        ensures
            r@ == squash_properties(props@),
    {
        let mut out: Vec<PropertyItem> = Vec::new();
        let mut i: usize = 0;
        while i < props.len()
            invariant
                i <= props@.len(),
                out@ == squash_properties(props@.take(i as int)),
            decreases props@.len() - i,
        {
            let ghost pre = props@.take(i as int);
            let x = props[i];
            let pos = Self::squash_probe(&out, &x.id);
            if let Some(j) = pos {
                let ghost before = out@;
                out.set(j, PropertyItem { id: x.id, data_type: x.data_type });
                proof {
                    assert(before[j as int].id == x.id);
                    assert(has_property_id(squash_properties(pre), x.id));
                    assert(out@ =~= Seq::new(
                        before.len(),
                        |k: int| if before[k].id == x.id {
                            PropertyItem { id: x.id, data_type: x.data_type }
                        } else {
                            before[k]
                        },
                    )) by {
                        lemma_squash_unique(pre);
                        assert forall|k: int| 0 <= k < before.len() && k != j implies
                            before[k].id != x.id by {
                            if k < j {
                            } else {
                                assert(before[j as int].id == x.id);
                            }
                        }
                    }
                }
            } else {
                out.push(x);
            }
            proof {
                assert(props@.take(i + 1 as int).drop_last() =~= pre);
                assert(props@.take(i + 1 as int).last() == props@[i as int]);
            }
            i = i + 1;
        }
        proof {
            assert(props@.take(props@.len() as int) =~= props@);
        }
        out
    }
}

/// The squash of any property sequence has unique ids.
proof fn lemma_squash_unique(s: Seq<PropertyItem>)
    ensures
        unique_property_ids(squash_properties(s)),
    decreases s.len(),
{
    lemma_squash_properties(s);
}

/// In-memory map from property id to its declared data type, hydrated
/// from storage at startup and extended as edits create properties.
pub struct PropertiesCache {
    entries: Vec<PropertyItem>,
}

impl View for PropertiesCache {
    type V = Map<Uid, DataType>;

    /// What the cache knows: the data type recorded for each id.
    closed spec fn view(&self) -> Map<Uid, DataType> {
        cache_view(self.entries@)
    }
}

impl PropertiesCache {
    /// The cache's internal invariant: one entry per id. Established by
    /// [`PropertiesCache::new`] and preserved by every method.
    pub closed spec fn wf(&self) -> bool {
        unique_property_ids(self.entries@)
    }

    /// An empty cache.
    pub fn new() -> (r: PropertiesCache)
        ensures
            r@ == Map::<Uid, DataType>::empty(),
            r.wf(),
    {
        let r = PropertiesCache { entries: Vec::new() };
        proof {
            assert(r@ =~= Map::<Uid, DataType>::empty());
        }
        r
    }

    /// Record `data_type` under `id`, replacing what was there.
    pub fn insert(&mut self, id: &Uid, data_type: DataType)
        requires
            old(self).wf(),
        ensures
            final(self)@ == old(self)@.insert(*id, data_type),
            final(self).wf(),
    {
        let n = self.entries.len();
        let mut j: usize = 0;
        while j < n
            invariant
                j <= n,
                self.entries@ == old(self).entries@,
                n == self.entries@.len(),
                unique_property_ids(self.entries@),
                forall|k: int| 0 <= k < j ==> (#[trigger] self.entries@[k]).id != *id,
            decreases n - j,
        {
            if self.entries[j].id == *id {
                let ghost before = self.entries@;
                self.entries.set(j, PropertyItem { id: *id, data_type });
                proof {
                    lemma_view_after_set(before, self.entries@, j as int, *id, data_type);
                }
                return;
            }
            j = j + 1;
        }
        let ghost before = self.entries@;
        self.entries.push(PropertyItem { id: *id, data_type });
        proof {
            lemma_view_after_push(before, self.entries@, *id, data_type);
        }
    }

    /// The data type recorded for `id`, if any.
    pub fn get(&self, id: &Uid) -> (r: Option<DataType>)
        requires
            self.wf(),
        ensures
            r == if self@.contains_key(*id) {
                Some(self@[*id])
            } else {
                None::<DataType>
            },
    {
        let n = self.entries.len();
        let mut j: usize = 0;
        while j < n
            invariant
                j <= n,
                n == self.entries@.len(),
                unique_property_ids(self.entries@),
                forall|k: int| 0 <= k < j ==> (#[trigger] self.entries@[k]).id != *id,
            decreases n - j,
        {
            if self.entries[j].id == *id {
                proof {
                    assert(has_property_id(self.entries@, *id));
                    lemma_first_index_unique(self.entries@, *id, j as int);
                }
                return Some(self.entries[j].data_type);
            }
            j = j + 1;
        }
        proof {
            assert(!has_property_id(self.entries@, *id));
        }
        None
    }

}

/// The first index of `s` carrying `id`.
pub open spec fn first_index_of(s: Seq<PropertyItem>, id: Uid) -> int {
    choose|i: int| 0 <= i < s.len() && #[trigger] s[i].id == id
        && forall|k: int| 0 <= k < i ==> (#[trigger] s[k]).id != id
}

proof fn lemma_first_index_exists(s: Seq<PropertyItem>, id: Uid)
    requires
        has_property_id(s, id),
    ensures
        ({
            let i = first_index_of(s, id);
            0 <= i < s.len() && s[i].id == id && forall|k: int|
                0 <= k < i ==> (#[trigger] s[k]).id != id
        }),
{
    let j = min_witness(s, id);
    assert(0 <= j < s.len() && s[j].id == id && forall|k: int|
        0 <= k < j ==> (#[trigger] s[k]).id != id);
}

/// The least index of `s` carrying `id`.
proof fn min_witness(s: Seq<PropertyItem>, id: Uid) -> (j: int)
    requires
        has_property_id(s, id),
    ensures
        0 <= j < s.len(),
        s[j].id == id,
        forall|k: int| 0 <= k < j ==> (#[trigger] s[k]).id != id,
    decreases s.len(),
{
    let w = choose|i: int| 0 <= i < s.len() && #[trigger] s[i].id == id;
    if exists|i: int| 0 <= i < w && #[trigger] s[i].id == id {
        let s2 = s.take(w);
        assert(has_property_id(s2, id)) by {
            let i2 = choose|i: int| 0 <= i < w && #[trigger] s[i].id == id;
            assert(s2[i2].id == id);
        }
        let j = min_witness(s2, id);
        assert(s[j].id == id);
        assert forall|k: int| 0 <= k < j implies (#[trigger] s[k]).id != id by {
            assert(s2[k] == s[k]);
        }
        j
    } else {
        w
    }
}

proof fn lemma_first_index_unique(s: Seq<PropertyItem>, id: Uid, j: int)
    requires
        unique_property_ids(s),
        0 <= j < s.len(),
        s[j].id == id,
    ensures
        first_index_of(s, id) == j,
{
    assert(has_property_id(s, id));
    lemma_first_index_exists(s, id);
    let i = first_index_of(s, id);
    if i < j {
        assert(s[i].id != s[j].id);
    } else if j < i {
    }
}

proof fn lemma_view_after_set(
    before: Seq<PropertyItem>,
    after: Seq<PropertyItem>,
    j: int,
    id: Uid,
    data_type: DataType,
)
    requires
        unique_property_ids(before),
        0 <= j < before.len(),
        before[j].id == id,
        after == before.update(j, PropertyItem { id, data_type }),
    ensures
        unique_property_ids(after),
        cache_view(after) == cache_view(before).insert(id, data_type),
{
    assert(unique_property_ids(after)) by {
        assert forall|i: int, k: int| 0 <= i < k < after.len() implies (#[trigger] after[i]).id
            != (#[trigger] after[k]).id by {
            assert(after[i].id == if i == j { id } else { before[i].id });
            assert(after[k].id == if k == j { id } else { before[k].id });
        }
    }
    assert(cache_view(after) =~= cache_view(before).insert(id, data_type)) by {
        assert forall|x: Uid| has_property_id(after, x) <==> (has_property_id(before, x) || x
            == id) by {
            if has_property_id(after, x) {
                let i = choose|i: int| 0 <= i < after.len() && after[i].id == x;
                if i == j {
                } else {
                    assert(before[i].id == x);
                }
            }
            if has_property_id(before, x) {
                let i = choose|i: int| 0 <= i < before.len() && before[i].id == x;
                if i == j {
                } else {
                    assert(after[i].id == x);
                }
            }
            if x == id {
                assert(after[j].id == x);
            }
        }
        assert forall|x: Uid| #[trigger] has_property_id(after, x) implies cache_view(after)[x]
            == cache_view(before).insert(id, data_type)[x] by {
            let i = choose|i: int| 0 <= i < after.len() && after[i].id == x;
            lemma_first_index_unique(after, x, i);
            if x == id {
                lemma_first_index_unique(after, x, j);
            } else {
                assert(before[i].id == x);
                lemma_first_index_unique(before, x, i);
            }
        }
    }
}

proof fn lemma_view_after_push(
    before: Seq<PropertyItem>,
    after: Seq<PropertyItem>,
    id: Uid,
    data_type: DataType,
)
    requires
        unique_property_ids(before),
        !has_property_id(before, id),
        after == before.push(PropertyItem { id, data_type }),
    ensures
        unique_property_ids(after),
        cache_view(after) == cache_view(before).insert(id, data_type),
{
    assert(unique_property_ids(after)) by {
        assert forall|i: int, k: int| 0 <= i < k < after.len() implies (#[trigger] after[i]).id
            != (#[trigger] after[k]).id by {
            if k == after.len() - 1 {
                assert(after[i].id == before[i].id);
                assert(!has_property_id(before, id));
                if before[i].id == id {
                    assert(has_property_id(before, id));
                }
            } else {
                assert(after[i].id == before[i].id);
                assert(after[k].id == before[k].id);
            }
        }
    }
    assert(cache_view(after) =~= cache_view(before).insert(id, data_type)) by {
        assert forall|x: Uid| has_property_id(after, x) <==> (has_property_id(before, x) || x
            == id) by {
            if has_property_id(after, x) {
                let i = choose|i: int| 0 <= i < after.len() && after[i].id == x;
                if i == after.len() - 1 {
                } else {
                    assert(before[i].id == x);
                }
            }
            if has_property_id(before, x) {
                let i = choose|i: int| 0 <= i < before.len() && before[i].id == x;
                assert(after[i].id == x);
            }
            if x == id {
                assert(after[after.len() - 1].id == x);
            }
        }
        assert forall|x: Uid| #[trigger] has_property_id(after, x) implies cache_view(after)[x]
            == cache_view(before).insert(id, data_type)[x] by {
            let i = choose|i: int| 0 <= i < after.len() && after[i].id == x;
            lemma_first_index_unique(after, x, i);
            if x == id {
                lemma_first_index_unique(after, x, after.len() - 1);
            } else {
                assert(i < after.len() - 1);
                assert(before[i].id == x);
                lemma_first_index_unique(before, x, i);
            }
        }
    }
}

/// The map view of a property-item sequence with unique ids.
pub open spec fn cache_view(s: Seq<PropertyItem>) -> Map<Uid, DataType> {
    Map::new(
        |id: Uid| has_property_id(s, id),
        |id: Uid| s[first_index_of(s, id)].data_type,
    )
}

} // verus!

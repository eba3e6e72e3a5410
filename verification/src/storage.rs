//! The storage layer: every table the indexer writes, with the exact
//! semantics of each write family.
//!
//! Rows live in memory, one vector per table, each keyed uniquely.
//! Writes are the upsert, no-overwrite, touch and delete families the
//! handlers use; each is specified functionally over the storage's
//! view, so replays and law proofs can reason about the whole store.

use vstd::prelude::*;
use crate::entities::EntityItem;
use crate::properties::PropertyItem;
use crate::proposals::{ProposalItem, ProposalStatus};
use crate::relations::{RelationItem, RelationUnsetItem, RelationUpdateItem};
use crate::uid::Uid;
use crate::values::{canonical_value_ids, spec_value_id, ValueOp, ValueChangeType};

verus! {

/// The space variant: governed publicly or personally administered.
#[derive(Clone, Copy, Debug, PartialEq, Eq, Structural)]
pub enum SpaceType {
    Personal,
    Public,
}

/// One space row. A public space carries the voting and membership
/// plugin addresses; a personal one its admin plugin address.
#[derive(Clone, Debug)]
pub struct SpaceRow {
    pub id: Uid,
    pub dao_address: String,
    pub space_type: SpaceType,
    pub space_address: String,
    pub main_voting_address: Option<String>,
    pub membership_address: Option<String>,
    pub personal_address: Option<String>,
}

/// One member or editor row.
#[derive(Clone, Debug)]
pub struct MembershipRow {
    pub space_id: Uid,
    pub address: String,
}

/// One parent-to-child subspace edge.
#[derive(Clone, Copy, Debug, PartialEq, Eq, Structural)]
pub struct SubspaceRow {
    pub parent_space_id: Uid,
    pub child_space_id: Uid,
}

/// A row type addressed by a single id.
pub trait Keyed: Sized {
    /// The row's key.
    spec fn key(&self) -> Uid;

    /// The row's key, read at run time.
    fn ukey(&self) -> (r: Uid)
        ensures
            r == self.key(),
    ;
}

impl Keyed for PropertyItem {
    open spec fn key(&self) -> Uid {
        self.id
    }

    fn ukey(&self) -> (r: Uid)
        ensures
            r == self.key(),
    {
        self.id
    }
}

impl Keyed for EntityItem {
    open spec fn key(&self) -> Uid {
        self.id
    }

    fn ukey(&self) -> (r: Uid)
        ensures
            r == self.key(),
    {
        self.id
    }
}

impl Keyed for ValueOp {
    open spec fn key(&self) -> Uid {
        self.id
    }

    fn ukey(&self) -> (r: Uid)
        ensures
            r == self.key(),
    {
        self.id
    }
}

impl Keyed for RelationItem {
    open spec fn key(&self) -> Uid {
        self.id
    }

    fn ukey(&self) -> (r: Uid)
        ensures
            r == self.key(),
    {
        self.id
    }
}

impl Keyed for ProposalItem {
    open spec fn key(&self) -> Uid {
        self.id
    }

    fn ukey(&self) -> (r: Uid)
        ensures
            r == self.key(),
    {
        self.id
    }
}

impl Keyed for SpaceRow {
    open spec fn key(&self) -> Uid {
        self.id
    }

    fn ukey(&self) -> (r: Uid)
        ensures
            r == self.key(),
    {
        self.id
    }
}

/// Some row of `s` carries key `id`.
pub open spec fn has_key<T: Keyed>(s: Seq<T>, id: Uid) -> bool {
    exists|i: int| 0 <= i < s.len() && (#[trigger] s[i]).key() == id
}

/// The rows of `s` carry pairwise distinct keys.
pub open spec fn unique_keys<T: Keyed>(s: Seq<T>) -> bool {
    forall|i: int, j: int| 0 <= i < j < s.len() ==> (#[trigger] s[i]).key() != (#[trigger] s[j]).key()
}

/// The index of the row of `s` carrying `id`.
pub open spec fn key_index<T: Keyed>(s: Seq<T>, id: Uid) -> int {
    choose|i: int| 0 <= i < s.len() && (#[trigger] s[i]).key() == id
}

/// The row of `s` carrying `id`, if any.
pub open spec fn lookup_key<T: Keyed>(s: Seq<T>, id: Uid) -> Option<T> {
    if has_key(s, id) {
        Some(s[key_index(s, id)])
    } else {
        None
    }
}

/// `s` with `x` written over the row carrying its key, or appended.
pub open spec fn upsert_key<T: Keyed>(s: Seq<T>, x: T) -> Seq<T> {
    if has_key(s, x.key()) {
        Seq::new(s.len(), |i: int| if s[i].key() == x.key() { x } else { s[i] })
    } else {
        s.push(x)
    }
}

/// `s` without any row carrying `id`.
pub open spec fn remove_key<T: Keyed>(s: Seq<T>, id: Uid) -> Seq<T>
    decreases s.len(),
{
    if s.len() == 0 {
        Seq::empty()
    } else {
        remove_key(s.drop_last(), id) + (if s.last().key() == id {
            Seq::empty()
        } else {
            seq![s.last()]
        })
    }
}

/// With unique keys, `key_index` points at any index known to carry the
/// key.
pub proof fn lemma_key_index_unique<T: Keyed>(s: Seq<T>, id: Uid, j: int)
    requires
        unique_keys(s),
        0 <= j < s.len(),
        s[j].key() == id,
    ensures
        has_key(s, id),
        key_index(s, id) == j,
{
    assert(has_key(s, id));
    let i = key_index(s, id);
    if i < j {
        assert(s[i].key() != s[j].key());
    } else if j < i {
        assert(s[j].key() != s[i].key());
    }
}

/// What an upsert does to lookups: the written key now finds the new
/// row; every other key finds what it found before.
pub proof fn lemma_lookup_upsert<T: Keyed>(s: Seq<T>, x: T, id: Uid)
    requires
        unique_keys(s),
    ensures
        unique_keys(upsert_key(s, x)),
        lookup_key(upsert_key(s, x), id) == if id == x.key() {
            Some(x)
        } else {
            lookup_key(s, id)
        },
{
    let t = upsert_key(s, x);
    if has_key(s, x.key()) {
        let j = key_index(s, x.key());
        lemma_key_index_unique(s, x.key(), j);
        assert(t.len() == s.len());
        assert forall|i: int| 0 <= i < t.len() implies (#[trigger] t[i]).key() == s[i].key() by {}
        assert(unique_keys(t)) by {
            assert forall|i: int, k: int| 0 <= i < k < t.len() implies (#[trigger] t[i]).key()
                != (#[trigger] t[k]).key() by {
                assert(t[i].key() == s[i].key() && t[k].key() == s[k].key());
            }
        }
        if id == x.key() {
            assert(t[j] == x);
            lemma_key_index_unique(t, id, j);
        } else {
            if has_key(s, id) {
                let k = key_index(s, id);
                lemma_key_index_unique(s, id, k);
                assert(t[k] == s[k]);
                lemma_key_index_unique(t, id, k);
            } else {
                if has_key(t, id) {
                    let k = key_index(t, id);
                    lemma_key_index_unique(t, id, k);
                    assert(s[k].key() == t[k].key());
                }
            }
        }
    } else {
        assert(t == s.push(x));
        assert(unique_keys(t)) by {
            assert forall|i: int, k: int| 0 <= i < k < t.len() implies (#[trigger] t[i]).key()
                != (#[trigger] t[k]).key() by {
                if k == t.len() - 1 {
                    assert(t[i] == s[i]);
                    if s[i].key() == x.key() {
                        assert(has_key(s, x.key()));
                    }
                } else {
                    assert(t[i] == s[i] && t[k] == s[k]);
                }
            }
        }
        if id == x.key() {
            lemma_key_index_unique(t, id, t.len() - 1);
        } else {
            if has_key(s, id) {
                let k = key_index(s, id);
                lemma_key_index_unique(s, id, k);
                assert(t[k] == s[k]);
                lemma_key_index_unique(t, id, k);
            } else {
                if has_key(t, id) {
                    let k = key_index(t, id);
                    lemma_key_index_unique(t, id, k);
                    if k < s.len() {
                        assert(s[k].key() == id);
                    }
                }
            }
        }
    }
}

/// What a removal does to lookups: the removed key finds nothing; every
/// other key finds what it found before.
pub proof fn lemma_lookup_remove<T: Keyed>(s: Seq<T>, rid: Uid, id: Uid)
    requires
        unique_keys(s),
    ensures
        unique_keys(remove_key(s, rid)),
        lookup_key(remove_key(s, rid), id) == if id == rid {
            None::<T>
        } else {
            lookup_key(s, id)
        },
    decreases s.len(),
{
    let t = remove_key(s, rid);
    if s.len() == 0 {
        assert(t.len() == 0);
        if has_key(s, id) {
            let k = key_index(s, id);
        }
        if has_key(t, id) {
            let k = key_index(t, id);
        }
    } else {
        let front = s.drop_last();
        let x = s.last();
        assert(unique_keys(front)) by {
            assert forall|i: int, k: int| 0 <= i < k < front.len() implies (#[trigger] front[i]).key()
                != (#[trigger] front[k]).key() by {
                assert(front[i] == s[i] && front[k] == s[k]);
            }
        }
        lemma_lookup_remove(front, rid, id);
        lemma_lookup_remove(front, rid, x.key());
        let ft = remove_key(front, rid);
        if x.key() == rid {
            assert(t == ft);
            if has_key(front, id) {
                let k = key_index(front, id);
                lemma_key_index_unique(front, id, k);
                assert(s[k].key() == id);
                lemma_key_index_unique(s, id, k);
                assert(lookup_key(s, id) == Some(s[k]));
                assert(front[k] == s[k]);
            } else {
                if id != rid && has_key(s, id) {
                    let k = key_index(s, id);
                    lemma_key_index_unique(s, id, k);
                    if k < front.len() {
                        assert(front[k].key() == id);
                    }
                }
            }
        } else {
            assert(t == ft.push(x));
            // x's key is not removed and not in front
            assert(!has_key(front, x.key())) by {
                if has_key(front, x.key()) {
                    let k = key_index(front, x.key());
                    lemma_key_index_unique(front, x.key(), k);
                    assert(s[k].key() == s[s.len() - 1].key());
                }
            }
            assert(lookup_key(ft, x.key()) is None);
            assert(!has_key(ft, x.key())) by {
                if has_key(ft, x.key()) {
                    let k = key_index(ft, x.key());
                }
            }
            assert(unique_keys(t)) by {
                assert forall|i: int, k: int| 0 <= i < k < t.len() implies (#[trigger] t[i]).key()
                    != (#[trigger] t[k]).key() by {
                    if k == t.len() - 1 {
                        assert(t[i] == ft[i]);
                        if ft[i].key() == x.key() {
                            assert(has_key(ft, x.key()));
                        }
                    } else {
                        assert(t[i] == ft[i] && t[k] == ft[k]);
                    }
                }
            }
            if id == x.key() {
                lemma_key_index_unique(t, id, t.len() - 1);
                lemma_key_index_unique(s, id, s.len() - 1);
            } else {
                if has_key(ft, id) {
                    let k = key_index(ft, id);
                    lemma_key_index_unique(ft, id, k);
                    assert(t[k] == ft[k]);
                    lemma_key_index_unique(t, id, k);
                } else {
                    assert(!has_key(t, id)) by {
                        if has_key(t, id) {
                            let k = key_index(t, id);
                            if k < ft.len() {
                                assert(ft[k].key() == id);
                            }
                        }
                    }
                }
                if id != rid {
                    if has_key(front, id) {
                        let k = key_index(front, id);
                        lemma_key_index_unique(front, id, k);
                        assert(s[k].key() == id);
                        lemma_key_index_unique(s, id, k);
                        assert(front[k] == s[k]);
                    } else {
                        if has_key(s, id) {
                            let k = key_index(s, id);
                            lemma_key_index_unique(s, id, k);
                            if k < front.len() {
                                assert(front[k].key() == id);
                            }
                        }
                    }
                }
            }
        }
    }
}

/// An upsert of a canonical row keeps the table canonical.
pub proof fn lemma_upsert_canonical(s: Seq<ValueOp>, x: ValueOp)
    requires
        canonical_value_ids(s),
        x.id == spec_value_id(x.entity_id, x.property_id, x.space_id),
    ensures
        canonical_value_ids(upsert_key(s, x)),
{
    let t = upsert_key(s, x);
    if has_key(s, x.key()) {
        assert forall|i: int| 0 <= i < t.len() implies (#[trigger] t[i]).id == spec_value_id(
            t[i].entity_id,
            t[i].property_id,
            t[i].space_id,
        ) by {
            assert(t[i] == if s[i].key() == x.key() { x } else { s[i] });
        }
    } else {
        assert forall|i: int| 0 <= i < t.len() implies (#[trigger] t[i]).id == spec_value_id(
            t[i].entity_id,
            t[i].property_id,
            t[i].space_id,
        ) by {
            if i < s.len() {
                assert(t[i] == s[i]);
            } else {
                assert(t[i] == x);
            }
        }
    }
}

/// A removal keeps the table canonical: every surviving row comes from
/// the input.
pub proof fn lemma_remove_key_canonical(s: Seq<ValueOp>, id: Uid)
    requires
        canonical_value_ids(s),
    ensures
        canonical_value_ids(remove_key(s, id)),
    decreases s.len(),
{
    if s.len() > 0 {
        let front = s.drop_last();
        assert(canonical_value_ids(front)) by {
            assert forall|i: int| 0 <= i < front.len() implies (#[trigger] front[i]).id
                == spec_value_id(front[i].entity_id, front[i].property_id, front[i].space_id) by {
                assert(front[i] == s[i]);
            }
        }
        lemma_remove_key_canonical(front, id);
        let ft = remove_key(front, id);
        let t = remove_key(s, id);
        if s.last().key() == id {
        } else {
            assert forall|i: int| 0 <= i < t.len() implies (#[trigger] t[i]).id == spec_value_id(
                t[i].entity_id,
                t[i].property_id,
                t[i].space_id,
            ) by {
                if i < ft.len() {
                    assert(t[i] == ft[i]);
                } else {
                    assert(t[i] == s[s.len() - 1]);
                }
            }
        }
    }
}

/// Find the index of the row carrying `id`, if any.
fn key_probe<T: Keyed>(v: &Vec<T>, id: &Uid) -> (r: Option<usize>)
    ensures
        match r {
            Some(j) => j < v@.len() && v@[j as int].key() == *id,
            None => !has_key(v@, *id),
        },
{
    let mut j: usize = 0;
    while j < v.len()
        invariant
            j <= v@.len(),
            forall|k: int| 0 <= k < j ==> (#[trigger] v@[k]).key() != *id,
        decreases v@.len() - j,
    {
        if v[j].ukey() == *id {
            return Some(j);
        }
        j = j + 1;
    }
    proof {
        if has_key(v@, *id) {
            let k = key_index(v@, *id);
        }
    }
    None
}

/// Write `x` over the row carrying its key, or append it.
fn vec_upsert<T: Keyed>(v: &mut Vec<T>, x: T)
    requires
        unique_keys(old(v)@),
    ensures
        final(v)@ == upsert_key(old(v)@, x),
        unique_keys(final(v)@),
{
    proof {
        lemma_lookup_upsert(v@, x, x.key());
    }
    let k = x.ukey();
    match key_probe(v, &k) {
        Some(j) => {
            let ghost before = v@;
            v.set(j, x);
            proof {
                assert(has_key(before, x.key()));
                assert forall|i: int| 0 <= i < before.len() && i != j implies
                    (#[trigger] before[i]).key() != x.key() by {
                    if i < j {
                        assert(before[i].key() != before[j as int].key());
                    } else {
                        assert(before[j as int].key() != before[i].key());
                    }
                }
                assert(v@ =~= upsert_key(before, x));
            }
        },
        None => {
            let ghost before = v@;
            v.push(x);
            proof {
                assert(v@ =~= upsert_key(before, x));
            }
        },
    }
}

/// Delete every row carrying `id`.
fn vec_remove_key<T: Keyed>(v: &mut Vec<T>, id: &Uid)
    requires
        unique_keys(old(v)@),
    ensures
        final(v)@ == remove_key(old(v)@, *id),
        unique_keys(final(v)@),
{
    proof {
        lemma_lookup_remove(v@, *id, *id);
    }
    let ghost orig = v@;
    let mut out: Vec<T> = Vec::new();
    let ghost mut i: int = 0;
    while v.len() > 0
        invariant
            0 <= i <= orig.len(),
            v@ =~= orig.skip(i),
            out@ == remove_key(orig.take(i), *id),
        decreases v@.len(),
    {
        let ghost pre = orig.take(i);
        let x = v.remove(0);
        proof {
            assert(x == orig[i]);
        }
        if !(x.ukey() == *id) {
            out.push(x);
        }
        proof {
            assert(orig.take(i + 1).drop_last() =~= pre);
            assert(orig.take(i + 1).last() == orig[i]);
            i = i + 1;
            assert(v@ =~= orig.skip(i));
        }
    }
    proof {
        assert(i == orig.len());
        assert(orig.take(orig.len() as int) =~= orig);
    }
    *v = out;
}

/// What the store holds: one row sequence per table.
pub struct StorageModel {
    pub spaces: Seq<SpaceRow>,
    pub properties: Seq<PropertyItem>,
    pub entities: Seq<EntityItem>,
    pub values: Seq<ValueOp>,
    pub relations: Seq<RelationItem>,
    pub members: Seq<MembershipRow>,
    pub editors: Seq<MembershipRow>,
    pub subspaces: Seq<SubspaceRow>,
    pub proposals: Seq<ProposalItem>,
}

/// The indexer's store: every table, in memory.
pub struct Storage {
    pub spaces: Vec<SpaceRow>,
    pub properties: Vec<PropertyItem>,
    pub entities: Vec<EntityItem>,
    pub values: Vec<ValueOp>,
    pub relations: Vec<RelationItem>,
    pub members: Vec<MembershipRow>,
    pub editors: Vec<MembershipRow>,
    pub subspaces: Vec<SubspaceRow>,
    pub proposals: Vec<ProposalItem>,
}

impl View for Storage {
    type V = StorageModel;

    open spec fn view(&self) -> StorageModel {
        StorageModel {
            spaces: self.spaces@,
            properties: self.properties@,
            entities: self.entities@,
            values: self.values@,
            relations: self.relations@,
            members: self.members@,
            editors: self.editors@,
            subspaces: self.subspaces@,
            proposals: self.proposals@,
        }
    }
}

/// A membership row sequence holds `(space, address)` at most once.
pub open spec fn unique_pairs(s: Seq<MembershipRow>) -> bool {
    forall|i: int, j: int|
        0 <= i < j < s.len() ==> !((#[trigger] s[i]).space_id == (#[trigger] s[j]).space_id
            && s[i].address@ == s[j].address@)
}

/// A subspace row sequence holds each edge at most once.
pub open spec fn unique_edges(s: Seq<SubspaceRow>) -> bool {
    forall|i: int, j: int| 0 <= i < j < s.len() ==> #[trigger] s[i] != #[trigger] s[j]
}

/// Some membership row carries `(space, address)`.
pub open spec fn has_pair(s: Seq<MembershipRow>, space: Uid, address: Seq<char>) -> bool {
    exists|i: int|
        0 <= i < s.len() && (#[trigger] s[i]).space_id == space && s[i].address@ == address
}

/// Some subspace row carries the edge.
pub open spec fn has_edge(s: Seq<SubspaceRow>, parent: Uid, child: Uid) -> bool {
    exists|i: int|
        0 <= i < s.len() && (#[trigger] s[i]).parent_space_id == parent && s[i].child_space_id
            == child
}

/// `s` without the rows carrying `(space, address)`.
pub open spec fn remove_pair(s: Seq<MembershipRow>, space: Uid, address: Seq<char>) -> Seq<
    MembershipRow,
>
    decreases s.len(),
{
    if s.len() == 0 {
        Seq::empty()
    } else {
        remove_pair(s.drop_last(), space, address) + (if s.last().space_id == space
            && s.last().address@ == address {
            Seq::empty()
        } else {
            seq![s.last()]
        })
    }
}

/// `s` without the rows carrying the edge.
pub open spec fn remove_edge(s: Seq<SubspaceRow>, parent: Uid, child: Uid) -> Seq<SubspaceRow>
    decreases s.len(),
{
    if s.len() == 0 {
        Seq::empty()
    } else {
        remove_edge(s.drop_last(), parent, child) + (if s.last().parent_space_id == parent
            && s.last().child_space_id == child {
            Seq::empty()
        } else {
            seq![s.last()]
        })
    }
}

impl Storage {
    /// The store's internal invariant: every table keyed uniquely.
    /// Established by [`Storage::new`] and preserved by every write.
    pub open spec fn wf(&self) -> bool {
        &&& unique_keys(self@.spaces)
        &&& unique_keys(self@.properties)
        &&& unique_keys(self@.entities)
        &&& unique_keys(self@.values)
        &&& canonical_value_ids(self@.values)
        &&& unique_keys(self@.relations)
        &&& unique_keys(self@.proposals)
        &&& unique_pairs(self@.members)
        &&& unique_pairs(self@.editors)
        &&& unique_edges(self@.subspaces)
    }

    /// An empty store.
    pub fn new() -> (r: Storage)
        ensures
            r.wf(),
            r@.spaces =~= Seq::<SpaceRow>::empty(),
            r@.properties =~= Seq::<PropertyItem>::empty(),
            r@.entities =~= Seq::<EntityItem>::empty(),
            r@.values =~= Seq::<ValueOp>::empty(),
            r@.relations =~= Seq::<RelationItem>::empty(),
            r@.members =~= Seq::<MembershipRow>::empty(),
            r@.editors =~= Seq::<MembershipRow>::empty(),
            r@.subspaces =~= Seq::<SubspaceRow>::empty(),
            r@.proposals =~= Seq::<ProposalItem>::empty(),
    {
        Storage {
            spaces: Vec::new(),
            properties: Vec::new(),
            entities: Vec::new(),
            values: Vec::new(),
            relations: Vec::new(),
            members: Vec::new(),
            editors: Vec::new(),
            subspaces: Vec::new(),
            proposals: Vec::new(),
        }
    }
}

/// Properties folded in without overwriting: a row whose id is already
/// present leaves the stored row untouched.
pub open spec fn insert_new_only(s: Seq<PropertyItem>, items: Seq<PropertyItem>) -> Seq<
    PropertyItem,
>
    decreases items.len(),
{
    if items.len() == 0 {
        s
    } else {
        let rest = insert_new_only(s, items.drop_last());
        if has_key(rest, items.last().key()) {
            rest
        } else {
            rest.push(items.last())
        }
    }
}

/// Entities folded in as touches: a new id is inserted as given; an
/// existing row keeps its creation stamps and takes the new update
/// stamps.
pub open spec fn touch_entities(s: Seq<EntityItem>, items: Seq<EntityItem>) -> Seq<EntityItem>
    decreases items.len(),
{
    if items.len() == 0 {
        s
    } else {
        let rest = touch_entities(s, items.drop_last());
        let x = items.last();
        if has_key(rest, x.id) {
            Seq::new(
                rest.len(),
                |i: int| if rest[i].id == x.id {
                    EntityItem {
                        id: x.id,
                        created_at: rest[i].created_at,
                        created_at_block: rest[i].created_at_block,
                        updated_at: x.updated_at,
                        updated_at_block: x.updated_at_block,
                    }
                } else {
                    rest[i]
                },
            )
        } else {
            rest.push(x)
        }
    }
}

/// A batch of rows folded in as upserts by key.
pub open spec fn upsert_all<T: Keyed>(s: Seq<T>, items: Seq<T>) -> Seq<T>
    decreases items.len(),
{
    if items.len() == 0 {
        s
    } else {
        upsert_key(upsert_all(s, items.drop_last()), items.last())
    }
}

/// A batch of keys folded in as removals, each scoped to `space`: a row
/// is removed when its key matches and it belongs to the space.
pub open spec fn remove_values(s: Seq<ValueOp>, items: Seq<ValueOp>, space: Uid) -> Seq<ValueOp>
    decreases items.len(),
{
    if items.len() == 0 {
        s
    } else {
        let rest = remove_values(s, items.drop_last(), space);
        if value_in_space(rest, items.last().id, space) {
            remove_key(rest, items.last().id)
        } else {
            rest
        }
    }
}

/// The row carrying `id` exists and belongs to `space`.
pub open spec fn value_in_space(s: Seq<ValueOp>, id: Uid, space: Uid) -> bool {
    match lookup_key(s, id) {
        Some(row) => row.space_id == space,
        None => false,
    }
}

impl Storage {
    /// Insert properties without overwriting: for each item in order,
    /// the first persisted data type of an id wins, now and forever.
    pub fn insert_properties(&mut self, properties: Vec<PropertyItem>)
        requires
            old(self).wf(),
        ensures
            final(self).wf(),
            final(self)@ == (StorageModel {
                properties: insert_new_only(old(self)@.properties, properties@),
                ..old(self)@
            }),
    {
        let ghost items = properties@;
        let ghost orig = self@;
        let mut i: usize = 0;
        while i < properties.len()
            invariant
                i <= items.len(),
                properties@ == items,
                self@ == (StorageModel {
                    properties: insert_new_only(orig.properties, items.take(i as int)),
                    ..orig
                }),
                unique_keys(orig.properties) && unique_keys(self@.properties),
                unique_keys(self@.entities) && unique_keys(self@.values) && unique_keys(
                    self@.relations,
                ) && unique_keys(self@.spaces) && unique_keys(self@.proposals),
                unique_pairs(self@.members) && unique_pairs(self@.editors),
                unique_edges(self@.subspaces),
            decreases items.len() - i,
        {
            let ghost pre = items.take(i as int);
            let x = properties[i];
            let ghost before = self@.properties;
            match key_probe(&self.properties, &x.id) {
                Some(_) => {
                    proof {
                        assert(has_key(before, x.key()));
                    }
                },
                None => {
                    self.properties.push(x);
                },
            }
            proof {
                assert(items.take(i + 1 as int).drop_last() =~= pre);
                assert(items.take(i + 1 as int).last() == items[i as int]);
                if !has_key(before, x.key()) {
                    assert(unique_keys(self@.properties)) by {
                        let t = self@.properties;
                        assert forall|a: int, b: int| 0 <= a < b < t.len() implies
                            (#[trigger] t[a]).key() != (#[trigger] t[b]).key() by {
                            if b == t.len() - 1 {
                                assert(t[a] == before[a]);
                                if before[a].key() == x.key() {
                                    assert(has_key(before, x.key()));
                                }
                            } else {
                                assert(t[a] == before[a] && t[b] == before[b]);
                            }
                        }
                    }
                }
            }
            i = i + 1;
        }
        proof {
            assert(items.take(items.len() as int) =~= items);
        }
    }

    /// Upsert entities as touches: first mention creates the row, every
    /// mention advances its update stamps.
    pub fn insert_entities(&mut self, entities: Vec<EntityItem>)
        requires
            old(self).wf(),
        ensures
            final(self).wf(),
            final(self)@ == (StorageModel {
                entities: touch_entities(old(self)@.entities, entities@),
                ..old(self)@
            }),
    {
        let ghost items = entities@;
        let ghost orig = self@;
        let ghost mut i: int = 0;
        let mut rest = entities;
        while rest.len() > 0
            invariant
                0 <= i <= items.len(),
                rest@ =~= items.skip(i),
                self@ == (StorageModel {
                    entities: touch_entities(orig.entities, items.take(i)),
                    ..orig
                }),
                unique_keys(orig.entities) && unique_keys(self@.entities),
                unique_keys(self@.values) && unique_keys(self@.relations) && unique_keys(
                    self@.spaces,
                ) && unique_keys(self@.proposals) && unique_keys(self@.properties),
                unique_pairs(self@.members) && unique_pairs(self@.editors),
                unique_edges(self@.subspaces),
            decreases rest@.len(),
        {
            let ghost pre = items.take(i);
            let x = rest.remove(0);
            proof {
                assert(x == items[i]);
            }
            let ghost before = self@.entities;
            match key_probe(&self.entities, &x.id) {
                Some(j) => {
                    let old_row = self.entities.remove(j);
                    let new_row = EntityItem {
                        id: x.id,
                        created_at: old_row.created_at,
                        created_at_block: old_row.created_at_block,
                        updated_at: x.updated_at,
                        updated_at_block: x.updated_at_block,
                    };
                    self.entities.insert(j, new_row);
                    proof {
                        assert forall|a: int| 0 <= a < before.len() && a != j implies
                            (#[trigger] before[a]).key() != x.key() by {
                            if a < j {
                                assert(before[a].key() != before[j as int].key());
                            } else {
                                assert(before[j as int].key() != before[a].key());
                            }
                        }
                        assert(self@.entities =~= touch_entities(orig.entities, items.take(i + 1)))
                            by {
                            assert(items.take(i + 1).drop_last() =~= pre);
                            assert(items.take(i + 1).last() == items[i]);
                            assert(has_key(before, x.id));
                        }
                        assert(unique_keys(self@.entities)) by {
                            let t = self@.entities;
                            assert forall|a: int, b: int| 0 <= a < b < t.len() implies
                                (#[trigger] t[a]).key() != (#[trigger] t[b]).key() by {
                                assert(t[a].key() == before[a].key());
                                assert(t[b].key() == before[b].key());
                            }
                        }
                    }
                },
                None => {
                    self.entities.push(x);
                    proof {
                        assert(items.take(i + 1).drop_last() =~= pre);
                        assert(items.take(i + 1).last() == items[i]);
                        assert(self@.entities =~= touch_entities(orig.entities, items.take(i + 1)));
                        assert(unique_keys(self@.entities)) by {
                            let t = self@.entities;
                            assert forall|a: int, b: int| 0 <= a < b < t.len() implies
                                (#[trigger] t[a]).key() != (#[trigger] t[b]).key() by {
                                if b == t.len() - 1 {
                                    assert(t[a] == before[a]);
                                    if before[a].key() == x.key() {
                                        assert(has_key(before, x.key()));
                                    }
                                } else {
                                    assert(t[a] == before[a] && t[b] == before[b]);
                                }
                            }
                        }
                    }
                },
            }
            proof {
                i = i + 1;
                assert(rest@ =~= items.skip(i));
            }
        }
        proof {
            assert(items.take(items.len() as int) =~= items);
        }
    }

    /// Upsert value rows by id. Every row must carry the synthetic id of
    /// its own triple, as every row the edit pipeline builds does.
    pub fn insert_values(&mut self, values: Vec<ValueOp>)
        requires
            old(self).wf(),
            canonical_value_ids(values@),
        ensures
            final(self).wf(),
            final(self)@ == (StorageModel {
                values: upsert_all(old(self)@.values, values@),
                ..old(self)@
            }),
    {
        let ghost items = values@;
        let ghost orig = self@;
        let ghost mut i: int = 0;
        let mut rest = values;
        while rest.len() > 0
            invariant
                0 <= i <= items.len(),
                rest@ =~= items.skip(i),
                canonical_value_ids(items),
                self@ == (StorageModel { values: upsert_all(orig.values, items.take(i)), ..orig }),
                unique_keys(orig.values) && unique_keys(self@.values),
                canonical_value_ids(self@.values),
                unique_keys(self@.entities) && unique_keys(self@.relations) && unique_keys(
                    self@.spaces,
                ) && unique_keys(self@.proposals) && unique_keys(self@.properties),
                unique_pairs(self@.members) && unique_pairs(self@.editors),
                unique_edges(self@.subspaces),
            decreases rest@.len(),
        {
            let ghost pre = items.take(i);
            let x = rest.remove(0);
            let ghost before_vals = self@.values;
            proof {
                assert(x == items[i]);
            }
            vec_upsert(&mut self.values, x);
            proof {
                lemma_upsert_canonical(before_vals, x);
                assert(items.take(i + 1).drop_last() =~= pre);
                assert(items.take(i + 1).last() == items[i]);
                i = i + 1;
                assert(rest@ =~= items.skip(i));
            }
        }
        proof {
            assert(items.take(items.len() as int) =~= items);
        }
    }

    /// Delete the value rows named by the UNSET batch, scoped to the
    /// given space: a row leaves only if it exists and belongs there.
    pub fn delete_values(&mut self, deleted: Vec<ValueOp>, space_id: &Uid)
        requires
            old(self).wf(),
        ensures
            final(self).wf(),
            final(self)@ == (StorageModel {
                values: remove_values(old(self)@.values, deleted@, *space_id),
                ..old(self)@
            }),
    {
        let ghost items = deleted@;
        let ghost orig = self@;
        let ghost mut i: int = 0;
        let mut rest = deleted;
        while rest.len() > 0
            invariant
                0 <= i <= items.len(),
                rest@ =~= items.skip(i),
                self@ == (StorageModel {
                    values: remove_values(orig.values, items.take(i), *space_id),
                    ..orig
                }),
                unique_keys(orig.values) && unique_keys(self@.values),
                canonical_value_ids(self@.values),
                unique_keys(self@.entities) && unique_keys(self@.relations) && unique_keys(
                    self@.spaces,
                ) && unique_keys(self@.proposals) && unique_keys(self@.properties),
                unique_pairs(self@.members) && unique_pairs(self@.editors),
                unique_edges(self@.subspaces),
            decreases rest@.len(),
        {
            let ghost pre = items.take(i);
            let x = rest.remove(0);
            proof {
                assert(x == items[i]);
            }
            match key_probe(&self.values, &x.id) {
                Some(j) => {
                    proof {
                        lemma_key_index_unique(self@.values, x.id, j as int);
                    }
                    if self.values[j].space_id.hi == space_id.hi && self.values[j].space_id.lo
                        == space_id.lo {
                        let ghost before_vals = self@.values;
                        proof {
                            assert(value_in_space(self@.values, x.id, *space_id));
                        }
                        vec_remove_key(&mut self.values, &x.id);
                        proof {
                            lemma_remove_key_canonical(before_vals, x.id);
                        }
                    } else {
                        proof {
                            assert(!value_in_space(self@.values, x.id, *space_id));
                        }
                    }
                },
                None => {
                    proof {
                        assert(!value_in_space(self@.values, x.id, *space_id));
                    }
                },
            }
            proof {
                assert(items.take(i + 1).drop_last() =~= pre);
                assert(items.take(i + 1).last() == items[i]);
                i = i + 1;
                assert(rest@ =~= items.skip(i));
            }
        }
        proof {
            assert(items.take(items.len() as int) =~= items);
        }
    }

    /// Upsert relation rows by id.
    pub fn insert_relations(&mut self, relations: Vec<RelationItem>)
        requires
            old(self).wf(),
        ensures
            final(self).wf(),
            final(self)@ == (StorageModel {
                relations: upsert_all(old(self)@.relations, relations@),
                ..old(self)@
            }),
    {
        let ghost items = relations@;
        let ghost orig = self@;
        let ghost mut i: int = 0;
        let mut rest = relations;
        while rest.len() > 0
            invariant
                0 <= i <= items.len(),
                rest@ =~= items.skip(i),
                self@ == (StorageModel {
                    relations: upsert_all(orig.relations, items.take(i)),
                    ..orig
                }),
                unique_keys(orig.relations) && unique_keys(self@.relations),
                unique_keys(self@.entities) && unique_keys(self@.values) && unique_keys(
                    self@.spaces,
                ) && unique_keys(self@.proposals) && unique_keys(self@.properties),
                unique_pairs(self@.members) && unique_pairs(self@.editors),
                unique_edges(self@.subspaces),
            decreases rest@.len(),
        {
            let ghost pre = items.take(i);
            let x = rest.remove(0);
            proof {
                assert(x == items[i]);
            }
            vec_upsert(&mut self.relations, x);
            proof {
                assert(items.take(i + 1).drop_last() =~= pre);
                assert(items.take(i + 1).last() == items[i]);
                i = i + 1;
                assert(rest@ =~= items.skip(i));
            }
        }
        proof {
            assert(items.take(items.len() as int) =~= items);
        }
    }
}

} // verus!

verus! {

/// Relies on `str`'s `PartialEq`: two string slices are equal exactly
/// when they hold the same characters.
#[verifier::external_body]
pub(crate) fn str_eq(a: &str, b: &str) -> (r: bool)
    ensures
        r == (a@ == b@),
{
    a == b
}

/// One relation row with an update applied: each present field of the
/// update is written; absent fields keep the stored value.
pub open spec fn apply_rel_update(row: RelationItem, u: RelationUpdateItem) -> RelationItem {
    RelationItem {
        id: row.id,
        entity_id: row.entity_id,
        type_id: row.type_id,
        from_entity_id: row.from_entity_id,
        to_entity_id: row.to_entity_id,
        space_id: row.space_id,
        from_space_id: if u.from_space_id is Some { u.from_space_id } else { row.from_space_id },
        from_version_id: if u.from_version_id is Some { u.from_version_id } else { row.from_version_id },
        to_space_id: if u.to_space_id is Some { u.to_space_id } else { row.to_space_id },
        to_version_id: if u.to_version_id is Some { u.to_version_id } else { row.to_version_id },
        position: if u.position is Some { u.position } else { row.position },
        verified: if u.verified is Some { u.verified } else { row.verified },
    }
}

/// One relation row with an unset applied: each flagged field is
/// cleared.
pub open spec fn apply_rel_unset(row: RelationItem, u: RelationUnsetItem) -> RelationItem {
    RelationItem {
        id: row.id,
        entity_id: row.entity_id,
        type_id: row.type_id,
        from_entity_id: row.from_entity_id,
        to_entity_id: row.to_entity_id,
        space_id: row.space_id,
        from_space_id: if u.from_space_id { None } else { row.from_space_id },
        from_version_id: if u.from_version_id { None } else { row.from_version_id },
        to_space_id: if u.to_space_id { None } else { row.to_space_id },
        to_version_id: if u.to_version_id { None } else { row.to_version_id },
        position: if u.position { None } else { row.position },
        verified: row.verified,
    }
}

/// Update batches folded in: each update rewrites the row carrying its
/// id, when there is one; updates to absent ids do nothing.
pub open spec fn update_relations_seq(s: Seq<RelationItem>, ups: Seq<RelationUpdateItem>) -> Seq<
    RelationItem,
>
    decreases ups.len(),
{
    if ups.len() == 0 {
        s
    } else {
        let rest = update_relations_seq(s, ups.drop_last());
        let u = ups.last();
        if has_key(rest, u.id) {
            Seq::new(
                rest.len(),
                |i: int| if rest[i].id == u.id {
                    apply_rel_update(rest[i], u)
                } else {
                    rest[i]
                },
            )
        } else {
            rest
        }
    }
}

/// Unset batches folded in, like updates.
pub open spec fn unset_relations_seq(s: Seq<RelationItem>, uns: Seq<RelationUnsetItem>) -> Seq<
    RelationItem,
>
    decreases uns.len(),
{
    if uns.len() == 0 {
        s
    } else {
        let rest = unset_relations_seq(s, uns.drop_last());
        let u = uns.last();
        if has_key(rest, u.id) {
            Seq::new(
                rest.len(),
                |i: int| if rest[i].id == u.id {
                    apply_rel_unset(rest[i], u)
                } else {
                    rest[i]
                },
            )
        } else {
            rest
        }
    }
}

/// The relation row carrying `id` exists and belongs to `space`.
pub open spec fn relation_in_space(s: Seq<RelationItem>, id: Uid, space: Uid) -> bool {
    match lookup_key(s, id) {
        Some(row) => row.space_id == space,
        None => false,
    }
}

/// Relation deletions folded in, each scoped to `space`.
pub open spec fn remove_relations(s: Seq<RelationItem>, ids: Seq<Uid>, space: Uid) -> Seq<
    RelationItem,
>
    decreases ids.len(),
{
    if ids.len() == 0 {
        s
    } else {
        let rest = remove_relations(s, ids.drop_last(), space);
        if relation_in_space(rest, ids.last(), space) {
            remove_key(rest, ids.last())
        } else {
            rest
        }
    }
}

/// Space rows folded in: a new id is inserted; an existing row is
/// replaced only when a public space arrives over a stored personal
/// one — governance wins — and is otherwise kept as created.
pub open spec fn insert_spaces_seq(s: Seq<SpaceRow>, items: Seq<SpaceRow>) -> Seq<SpaceRow>
    decreases items.len(),
{
    if items.len() == 0 {
        s
    } else {
        let rest = insert_spaces_seq(s, items.drop_last());
        let x = items.last();
        if has_key(rest, x.id) {
            if lookup_key(rest, x.id)->Some_0.space_type == SpaceType::Personal && x.space_type
                == SpaceType::Public {
                upsert_key(rest, x)
            } else {
                rest
            }
        } else {
            rest.push(x)
        }
    }
}

/// A membership row folded in idempotently.
pub open spec fn add_pair(s: Seq<MembershipRow>, row: MembershipRow) -> Seq<MembershipRow> {
    if has_pair(s, row.space_id, row.address@) {
        s
    } else {
        s.push(row)
    }
}

/// A subspace edge folded in idempotently.
pub open spec fn add_edge(s: Seq<SubspaceRow>, row: SubspaceRow) -> Seq<SubspaceRow> {
    if has_edge(s, row.parent_space_id, row.child_space_id) {
        s
    } else {
        s.push(row)
    }
}

/// Status updates folded in: every row named by `ids` takes `status`.
pub open spec fn set_proposal_status(s: Seq<ProposalItem>, ids: Seq<Uid>, status: ProposalStatus) -> Seq<ProposalItem>
    decreases ids.len(),
{
    if ids.len() == 0 {
        s
    } else {
        let rest = set_proposal_status(s, ids.drop_last(), status);
        let id = ids.last();
        if has_key(rest, id) {
            Seq::new(
                rest.len(),
                |i: int| if rest[i].id == id {
                    ProposalItem { status, ..rest[i] }
                } else {
                    rest[i]
                },
            )
        } else {
            rest
        }
    }
}

impl Storage {
    /// Apply relation updates: each rewrites the stored row carrying
    /// its id; updates to unknown ids do nothing.
    pub fn update_relations(&mut self, updates: Vec<RelationUpdateItem>)
        requires
            old(self).wf(),
        ensures
            final(self).wf(),
            final(self)@ == (StorageModel {
                relations: update_relations_seq(old(self)@.relations, updates@),
                ..old(self)@
            }),
    {
        let ghost items = updates@;
        let ghost orig = self@;
        let ghost mut i: int = 0;
        let mut rest = updates;
        while rest.len() > 0
            invariant
                0 <= i <= items.len(),
                rest@ =~= items.skip(i),
                self@ == (StorageModel {
                    relations: update_relations_seq(orig.relations, items.take(i)),
                    ..orig
                }),
                unique_keys(orig.relations) && unique_keys(self@.relations),
                unique_keys(self@.entities) && unique_keys(self@.values) && unique_keys(
                    self@.spaces,
                ) && unique_keys(self@.proposals) && unique_keys(self@.properties),
                unique_pairs(self@.members) && unique_pairs(self@.editors),
                unique_edges(self@.subspaces),
            decreases rest@.len(),
        {
            let ghost pre = items.take(i);
            let u = rest.remove(0);
            proof {
                assert(u == items[i]);
            }
            let ghost before = self@.relations;
            match key_probe(&self.relations, &u.id) {
                Some(j) => {
                    let row = self.relations.remove(j);
                    let new_row = RelationItem {
                        id: row.id,
                        entity_id: row.entity_id,
                        type_id: row.type_id,
                        from_entity_id: row.from_entity_id,
                        to_entity_id: row.to_entity_id,
                        space_id: row.space_id,
                        from_space_id: match u.from_space_id {
                            Some(v) => Some(v),
                            None => row.from_space_id,
                        },
                        from_version_id: match u.from_version_id {
                            Some(v) => Some(v),
                            None => row.from_version_id,
                        },
                        to_space_id: match u.to_space_id {
                            Some(v) => Some(v),
                            None => row.to_space_id,
                        },
                        to_version_id: match u.to_version_id {
                            Some(v) => Some(v),
                            None => row.to_version_id,
                        },
                        position: match u.position {
                            Some(p) => Some(p),
                            None => row.position,
                        },
                        verified: match u.verified {
                            Some(v) => Some(v),
                            None => row.verified,
                        },
                    };
                    self.relations.insert(j, new_row);
                    proof {
                        assert(new_row == apply_rel_update(before[j as int], u));
                        assert forall|a: int| 0 <= a < before.len() && a != j implies
                            (#[trigger] before[a]).key() != u.id by {
                            if a < j {
                                assert(before[a].key() != before[j as int].key());
                            } else {
                                assert(before[j as int].key() != before[a].key());
                            }
                        }
                        assert(items.take(i + 1).drop_last() =~= pre);
                        assert(items.take(i + 1).last() == items[i]);
                        assert(has_key(before, u.id));
                        assert(self@.relations =~= update_relations_seq(
                            orig.relations,
                            items.take(i + 1),
                        ));
                        assert(unique_keys(self@.relations)) by {
                            let t = self@.relations;
                            assert forall|a: int, b: int| 0 <= a < b < t.len() implies
                                (#[trigger] t[a]).key() != (#[trigger] t[b]).key() by {
                                assert(t[a].key() == before[a].key());
                                assert(t[b].key() == before[b].key());
                            }
                        }
                    }
                },
                None => {
                    proof {
                        assert(items.take(i + 1).drop_last() =~= pre);
                        assert(items.take(i + 1).last() == items[i]);
                    }
                },
            }
            proof {
                i = i + 1;
                assert(rest@ =~= items.skip(i));
            }
        }
        proof {
            assert(items.take(items.len() as int) =~= items);
        }
    }

    /// Clear the flagged optional fields of the stored rows the batch
    /// names; unknown ids do nothing.
    pub fn unset_relation_fields(&mut self, unsets: Vec<RelationUnsetItem>)
        requires
            old(self).wf(),
        ensures
            final(self).wf(),
            final(self)@ == (StorageModel {
                relations: unset_relations_seq(old(self)@.relations, unsets@),
                ..old(self)@
            }),
    {
        let ghost items = unsets@;
        let ghost orig = self@;
        let ghost mut i: int = 0;
        let mut rest = unsets;
        while rest.len() > 0
            invariant
                0 <= i <= items.len(),
                rest@ =~= items.skip(i),
                self@ == (StorageModel {
                    relations: unset_relations_seq(orig.relations, items.take(i)),
                    ..orig
                }),
                unique_keys(orig.relations) && unique_keys(self@.relations),
                unique_keys(self@.entities) && unique_keys(self@.values) && unique_keys(
                    self@.spaces,
                ) && unique_keys(self@.proposals) && unique_keys(self@.properties),
                unique_pairs(self@.members) && unique_pairs(self@.editors),
                unique_edges(self@.subspaces),
            decreases rest@.len(),
        {
            let ghost pre = items.take(i);
            let u = rest.remove(0);
            proof {
                assert(u == items[i]);
            }
            let ghost before = self@.relations;
            match key_probe(&self.relations, &u.id) {
                Some(j) => {
                    let row = self.relations.remove(j);
                    let new_row = RelationItem {
                        id: row.id,
                        entity_id: row.entity_id,
                        type_id: row.type_id,
                        from_entity_id: row.from_entity_id,
                        to_entity_id: row.to_entity_id,
                        space_id: row.space_id,
                        from_space_id: if u.from_space_id { None } else { row.from_space_id },
                        from_version_id: if u.from_version_id { None } else { row.from_version_id },
                        to_space_id: if u.to_space_id { None } else { row.to_space_id },
                        to_version_id: if u.to_version_id { None } else { row.to_version_id },
                        position: if u.position { None } else { row.position },
                        verified: row.verified,
                    };
                    self.relations.insert(j, new_row);
                    proof {
                        assert(new_row == apply_rel_unset(before[j as int], u));
                        assert forall|a: int| 0 <= a < before.len() && a != j implies
                            (#[trigger] before[a]).key() != u.id by {
                            if a < j {
                                assert(before[a].key() != before[j as int].key());
                            } else {
                                assert(before[j as int].key() != before[a].key());
                            }
                        }
                        assert(items.take(i + 1).drop_last() =~= pre);
                        assert(items.take(i + 1).last() == items[i]);
                        assert(has_key(before, u.id));
                        assert(self@.relations =~= unset_relations_seq(
                            orig.relations,
                            items.take(i + 1),
                        ));
                        assert(unique_keys(self@.relations)) by {
                            let t = self@.relations;
                            assert forall|a: int, b: int| 0 <= a < b < t.len() implies
                                (#[trigger] t[a]).key() != (#[trigger] t[b]).key() by {
                                assert(t[a].key() == before[a].key());
                                assert(t[b].key() == before[b].key());
                            }
                        }
                    }
                },
                None => {
                    proof {
                        assert(items.take(i + 1).drop_last() =~= pre);
                        assert(items.take(i + 1).last() == items[i]);
                    }
                },
            }
            proof {
                i = i + 1;
                assert(rest@ =~= items.skip(i));
            }
        }
        proof {
            assert(items.take(items.len() as int) =~= items);
        }
    }

    /// Delete the relations named by id, each scoped to the given
    /// space: a row leaves only if it exists and belongs there.
    pub fn delete_relations(&mut self, ids: Vec<Uid>, space_id: &Uid)
        requires
            old(self).wf(),
        ensures
            final(self).wf(),
            final(self)@ == (StorageModel {
                relations: remove_relations(old(self)@.relations, ids@, *space_id),
                ..old(self)@
            }),
    {
        let ghost items = ids@;
        let ghost orig = self@;
        let mut i: usize = 0;
        while i < ids.len()
            invariant
                i <= items.len(),
                ids@ == items,
                self@ == (StorageModel {
                    relations: remove_relations(orig.relations, items.take(i as int), *space_id),
                    ..orig
                }),
                unique_keys(orig.relations) && unique_keys(self@.relations),
                unique_keys(self@.entities) && unique_keys(self@.values) && unique_keys(
                    self@.spaces,
                ) && unique_keys(self@.proposals) && unique_keys(self@.properties),
                unique_pairs(self@.members) && unique_pairs(self@.editors),
                unique_edges(self@.subspaces),
            decreases items.len() - i,
        {
            let ghost pre = items.take(i as int);
            let id = ids[i];
            match key_probe(&self.relations, &id) {
                Some(j) => {
                    proof {
                        lemma_key_index_unique(self@.relations, id, j as int);
                    }
                    if self.relations[j].space_id == *space_id {
                        proof {
                            assert(relation_in_space(self@.relations, id, *space_id));
                        }
                        vec_remove_key(&mut self.relations, &id);
                    } else {
                        proof {
                            assert(!relation_in_space(self@.relations, id, *space_id));
                        }
                    }
                },
                None => {
                    proof {
                        assert(!relation_in_space(self@.relations, id, *space_id));
                    }
                },
            }
            proof {
                assert(items.take(i + 1 as int).drop_last() =~= pre);
                assert(items.take(i + 1 as int).last() == items[i as int]);
            }
            i = i + 1;
        }
        proof {
            assert(items.take(items.len() as int) =~= items);
        }
    }

    /// Insert spaces idempotently, variant-aware: a new id is created
    /// as given; a stored personal space is replaced when a public
    /// space for the same id arrives — governance wins — and nothing
    /// else changes a stored row.
    pub fn insert_spaces(&mut self, spaces: Vec<SpaceRow>)
        requires
            old(self).wf(),
        ensures
            final(self).wf(),
            final(self)@ == (StorageModel {
                spaces: insert_spaces_seq(old(self)@.spaces, spaces@),
                ..old(self)@
            }),
    {
        let ghost items = spaces@;
        let ghost orig = self@;
        let ghost mut i: int = 0;
        let mut rest = spaces;
        while rest.len() > 0
            invariant
                0 <= i <= items.len(),
                rest@ =~= items.skip(i),
                self@ == (StorageModel {
                    spaces: insert_spaces_seq(orig.spaces, items.take(i)),
                    ..orig
                }),
                unique_keys(orig.spaces) && unique_keys(self@.spaces),
                unique_keys(self@.entities) && unique_keys(self@.values) && unique_keys(
                    self@.relations,
                ) && unique_keys(self@.proposals) && unique_keys(self@.properties),
                unique_pairs(self@.members) && unique_pairs(self@.editors),
                unique_edges(self@.subspaces),
            decreases rest@.len(),
        {
            let ghost pre = items.take(i);
            let x = rest.remove(0);
            proof {
                assert(x == items[i]);
            }
            let ghost before = self@.spaces;
            match key_probe(&self.spaces, &x.id) {
                Some(j) => {
                    proof {
                        lemma_key_index_unique(before, x.id, j as int);
                    }
                    let replace = matches!(self.spaces[j].space_type, SpaceType::Personal)
                        && matches!(x.space_type, SpaceType::Public);
                    if replace {
                        proof {
                            lemma_lookup_upsert(before, x, x.id);
                        }
                        vec_upsert(&mut self.spaces, x);
                    }
                    proof {
                        assert(items.take(i + 1).drop_last() =~= pre);
                        assert(items.take(i + 1).last() == items[i]);
                        assert(self@.spaces =~= insert_spaces_seq(orig.spaces, items.take(i + 1)));
                    }
                },
                None => {
                    self.spaces.push(x);
                    proof {
                        assert(items.take(i + 1).drop_last() =~= pre);
                        assert(items.take(i + 1).last() == items[i]);
                        assert(self@.spaces =~= insert_spaces_seq(orig.spaces, items.take(i + 1)));
                        assert(unique_keys(self@.spaces)) by {
                            let t = self@.spaces;
                            assert forall|a: int, b: int| 0 <= a < b < t.len() implies
                                (#[trigger] t[a]).key() != (#[trigger] t[b]).key() by {
                                if b == t.len() - 1 {
                                    assert(t[a] == before[a]);
                                    if before[a].key() == x.key() {
                                        assert(has_key(before, x.key()));
                                    }
                                } else {
                                    assert(t[a] == before[a] && t[b] == before[b]);
                                }
                            }
                        }
                    }
                },
            }
            proof {
                i = i + 1;
                assert(rest@ =~= items.skip(i));
            }
        }
        proof {
            assert(items.take(items.len() as int) =~= items);
        }
    }
}

} // verus!

verus! {

impl Storage {
    /// Add a member row idempotently.
    pub fn add_member(&mut self, row: MembershipRow)
        requires
            old(self).wf(),
        ensures
            final(self).wf(),
            final(self)@ == (StorageModel { members: add_pair(old(self)@.members, row), ..old(self)@ }),
    {
        let ghost orig = self@.members;
        match Self::pair_probe(&self.members, &row.space_id, &row.address) {
            Some(_) => {
                proof {
                    assert(has_pair(orig, row.space_id, row.address@));
                }
            },
            None => {
                self.members.push(row);
                proof {
                    lemma_add_pair_unique(orig, row);
                }
            },
        }
    }

    /// Remove a member row idempotently.
    pub fn remove_member(&mut self, space_id: &Uid, address: &String)
        requires
            old(self).wf(),
        ensures
            final(self).wf(),
            final(self)@ == (StorageModel {
                members: remove_pair(old(self)@.members, *space_id, address@),
                ..old(self)@
            }),
    {
        Self::vec_remove_pair(&mut self.members, space_id, address);
    }

    /// Add an editor row idempotently.
    pub fn add_editor(&mut self, row: MembershipRow)
        requires
            old(self).wf(),
        ensures
            final(self).wf(),
            final(self)@ == (StorageModel { editors: add_pair(old(self)@.editors, row), ..old(self)@ }),
    {
        let ghost orig = self@.editors;
        match Self::pair_probe(&self.editors, &row.space_id, &row.address) {
            Some(_) => {
                proof {
                    assert(has_pair(orig, row.space_id, row.address@));
                }
            },
            None => {
                self.editors.push(row);
                proof {
                    lemma_add_pair_unique(orig, row);
                }
            },
        }
    }

    /// Remove an editor row idempotently.
    pub fn remove_editor(&mut self, space_id: &Uid, address: &String)
        requires
            old(self).wf(),
        ensures
            final(self).wf(),
            final(self)@ == (StorageModel {
                editors: remove_pair(old(self)@.editors, *space_id, address@),
                ..old(self)@
            }),
    {
        Self::vec_remove_pair(&mut self.editors, space_id, address);
    }

    /// Add a subspace edge idempotently.
    pub fn add_subspace(&mut self, row: SubspaceRow)
        requires
            old(self).wf(),
        ensures
            final(self).wf(),
            final(self)@ == (StorageModel {
                subspaces: add_edge(old(self)@.subspaces, row),
                ..old(self)@
            }),
    {
        let ghost orig = self@.subspaces;
        let mut j: usize = 0;
        let n = self.subspaces.len();
        while j < n
            invariant
                old(self).wf(),
                j <= n,
                self@ == old(self)@,
                orig == self.subspaces@,
                n == self.subspaces@.len(),
                forall|k: int|
                    0 <= k < j ==> !((#[trigger] self.subspaces@[k]).parent_space_id
                        == row.parent_space_id && self.subspaces@[k].child_space_id
                        == row.child_space_id),
            decreases n - j,
        {
            if self.subspaces[j].parent_space_id == row.parent_space_id
                && self.subspaces[j].child_space_id == row.child_space_id {
                proof {
                    assert((#[trigger] orig[j as int]).parent_space_id == row.parent_space_id
                        && orig[j as int].child_space_id == row.child_space_id);
                    assert(has_edge(orig, row.parent_space_id, row.child_space_id));
                }
                return;
            }
            j = j + 1;
        }
        proof {
            if has_edge(orig, row.parent_space_id, row.child_space_id) {
                let k = choose|k: int|
                    0 <= k < orig.len() && (#[trigger] orig[k]).parent_space_id
                        == row.parent_space_id && orig[k].child_space_id == row.child_space_id;
            }
        }
        let ghost before = self@.subspaces;
        self.subspaces.push(row);
        proof {
            assert(unique_edges(self@.subspaces)) by {
                let t = self@.subspaces;
                assert forall|a: int, b: int| 0 <= a < b < t.len() implies #[trigger] t[a]
                    != #[trigger] t[b] by {
                    if b == t.len() - 1 {
                        assert(t[a] == before[a]);
                        if before[a] == row {
                            assert(has_edge(before, row.parent_space_id, row.child_space_id));
                        }
                    } else {
                        assert(t[a] == before[a] && t[b] == before[b]);
                    }
                }
            }
        }
    }

    /// Remove a subspace edge idempotently.
    pub fn remove_subspace(&mut self, parent: &Uid, child: &Uid)
        requires
            old(self).wf(),
        ensures
            final(self).wf(),
            final(self)@ == (StorageModel {
                subspaces: remove_edge(old(self)@.subspaces, *parent, *child),
                ..old(self)@
            }),
    {
        let ghost orig = self@.subspaces;
        let mut out: Vec<SubspaceRow> = Vec::new();
        let ghost mut i: int = 0;
        let mut rest: Vec<SubspaceRow> = Vec::new();
        core::mem::swap(&mut rest, &mut self.subspaces);
        while rest.len() > 0
            invariant
                0 <= i <= orig.len(),
                rest@ =~= orig.skip(i),
                out@ == remove_edge(orig.take(i), *parent, *child),
                self@ == (StorageModel { subspaces: Seq::empty(), ..old(self)@ }) || self@
                    == (StorageModel { subspaces: self.subspaces@, ..old(self)@ }),
                self.subspaces@ =~= Seq::<SubspaceRow>::empty(),
            decreases rest@.len(),
        {
            let ghost pre = orig.take(i);
            let x = rest.remove(0);
            proof {
                assert(x == orig[i]);
            }
            if !(x.parent_space_id == *parent && x.child_space_id == *child) {
                out.push(x);
            }
            proof {
                assert(orig.take(i + 1).drop_last() =~= pre);
                assert(orig.take(i + 1).last() == orig[i]);
                i = i + 1;
                assert(rest@ =~= orig.skip(i));
            }
        }
        proof {
            assert(orig.take(orig.len() as int) =~= orig);
            lemma_remove_edge_unique(orig, *parent, *child);
        }
        self.subspaces = out;
    }

    /// Upsert proposal rows by id.
    pub fn insert_proposals(&mut self, proposals: Vec<ProposalItem>)
        requires
            old(self).wf(),
        ensures
            final(self).wf(),
            final(self)@ == (StorageModel {
                proposals: upsert_all(old(self)@.proposals, proposals@),
                ..old(self)@
            }),
    {
        let ghost items = proposals@;
        let ghost orig = self@;
        let ghost mut i: int = 0;
        let mut rest = proposals;
        while rest.len() > 0
            invariant
                0 <= i <= items.len(),
                rest@ =~= items.skip(i),
                self@ == (StorageModel {
                    proposals: upsert_all(orig.proposals, items.take(i)),
                    ..orig
                }),
                unique_keys(orig.proposals) && unique_keys(self@.proposals),
                unique_keys(self@.entities) && unique_keys(self@.values) && unique_keys(
                    self@.relations,
                ) && unique_keys(self@.spaces) && unique_keys(self@.properties),
                unique_pairs(self@.members) && unique_pairs(self@.editors),
                unique_edges(self@.subspaces),
            decreases rest@.len(),
        {
            let ghost pre = items.take(i);
            let x = rest.remove(0);
            proof {
                assert(x == items[i]);
            }
            vec_upsert(&mut self.proposals, x);
            proof {
                assert(items.take(i + 1).drop_last() =~= pre);
                assert(items.take(i + 1).last() == items[i]);
                i = i + 1;
                assert(rest@ =~= items.skip(i));
            }
        }
        proof {
            assert(items.take(items.len() as int) =~= items);
        }
    }

    /// Set the status of every stored proposal the batch names; ids
    /// with no row do nothing.
    pub fn update_proposal_status(&mut self, ids: Vec<Uid>, status: ProposalStatus)
        requires
            old(self).wf(),
        ensures
            final(self).wf(),
            final(self)@ == (StorageModel {
                proposals: set_proposal_status(old(self)@.proposals, ids@, status),
                ..old(self)@
            }),
    {
        let ghost items = ids@;
        let ghost orig = self@;
        let mut i: usize = 0;
        while i < ids.len()
            invariant
                i <= items.len(),
                ids@ == items,
                self@ == (StorageModel {
                    proposals: set_proposal_status(orig.proposals, items.take(i as int), status),
                    ..orig
                }),
                unique_keys(orig.proposals) && unique_keys(self@.proposals),
                unique_keys(self@.entities) && unique_keys(self@.values) && unique_keys(
                    self@.relations,
                ) && unique_keys(self@.spaces) && unique_keys(self@.properties),
                unique_pairs(self@.members) && unique_pairs(self@.editors),
                unique_edges(self@.subspaces),
            decreases items.len() - i,
        {
            let ghost pre = items.take(i as int);
            let id = ids[i];
            let ghost before = self@.proposals;
            match key_probe(&self.proposals, &id) {
                Some(j) => {
                    let row = self.proposals.remove(j);
                    let new_row = ProposalItem { status, ..row };
                    self.proposals.insert(j, new_row);
                    proof {
                        assert forall|a: int| 0 <= a < before.len() && a != j implies
                            (#[trigger] before[a]).key() != id by {
                            if a < j {
                                assert(before[a].key() != before[j as int].key());
                            } else {
                                assert(before[j as int].key() != before[a].key());
                            }
                        }
                        assert(items.take(i + 1 as int).drop_last() =~= pre);
                        assert(items.take(i + 1 as int).last() == items[i as int]);
                        assert(has_key(before, id));
                        assert(self@.proposals =~= set_proposal_status(
                            orig.proposals,
                            items.take(i + 1 as int),
                            status,
                        ));
                        assert(unique_keys(self@.proposals)) by {
                            let t = self@.proposals;
                            assert forall|a: int, b: int| 0 <= a < b < t.len() implies
                                (#[trigger] t[a]).key() != (#[trigger] t[b]).key() by {
                                assert(t[a].key() == before[a].key());
                                assert(t[b].key() == before[b].key());
                            }
                        }
                    }
                },
                None => {
                    proof {
                        assert(items.take(i + 1 as int).drop_last() =~= pre);
                        assert(items.take(i + 1 as int).last() == items[i as int]);
                    }
                },
            }
            i = i + 1;
        }
        proof {
            assert(items.take(items.len() as int) =~= items);
        }
    }

    /// Find a membership row by its pair.
    fn pair_probe(v: &Vec<MembershipRow>, space_id: &Uid, address: &String) -> (r: Option<usize>)
        ensures
            match r {
                Some(j) => j < v@.len() && v@[j as int].space_id == *space_id
                    && v@[j as int].address@ == address@,
                None => !has_pair(v@, *space_id, address@),
            },
    {
        let mut j: usize = 0;
        while j < v.len()
            invariant
                j <= v@.len(),
                forall|k: int|
                    0 <= k < j ==> !((#[trigger] v@[k]).space_id == *space_id && v@[k].address@
                        == address@),
            decreases v@.len() - j,
        {
            if v[j].space_id == *space_id && v[j].address == *address {
                return Some(j);
            }
            j = j + 1;
        }
        proof {
            if has_pair(v@, *space_id, address@) {
                let k = choose|k: int|
                    0 <= k < v@.len() && (#[trigger] v@[k]).space_id == *space_id
                        && v@[k].address@ == address@;
            }
        }
        None
    }

    /// Delete every membership row carrying the pair.
    fn vec_remove_pair(v: &mut Vec<MembershipRow>, space_id: &Uid, address: &String)
        requires
            unique_pairs(old(v)@),
        ensures
            final(v)@ == remove_pair(old(v)@, *space_id, address@),
            unique_pairs(final(v)@),
    {
        let ghost orig = v@;
        let mut out: Vec<MembershipRow> = Vec::new();
        let ghost mut i: int = 0;
        while v.len() > 0
            invariant
                0 <= i <= orig.len(),
                v@ =~= orig.skip(i),
                out@ == remove_pair(orig.take(i), *space_id, address@),
            decreases v@.len(),
        {
            let ghost pre = orig.take(i);
            let x = v.remove(0);
            proof {
                assert(x == orig[i]);
            }
            if !(x.space_id == *space_id && x.address == *address) {
                out.push(x);
            }
            proof {
                assert(orig.take(i + 1).drop_last() =~= pre);
                assert(orig.take(i + 1).last() == orig[i]);
                i = i + 1;
                assert(v@ =~= orig.skip(i));
            }
        }
        proof {
            assert(orig.take(orig.len() as int) =~= orig);
            lemma_remove_pair_unique(orig, *space_id, address@);
        }
        *v = out;
    }

    /// The stored property row for an id.
    pub fn get_property(&self, id: &Uid) -> (r: Option<&PropertyItem>)
        requires
            self.wf(),
        ensures
            match r {
                Some(row) => lookup_key(self@.properties, *id) == Some(*row),
                None => lookup_key(self@.properties, *id) is None,
            },
    {
        key_find(&self.properties, id)
    }

    /// The stored entity row for an id.
    pub fn get_entity(&self, id: &Uid) -> (r: Option<&EntityItem>)
        requires
            self.wf(),
        ensures
            match r {
                Some(row) => lookup_key(self@.entities, *id) == Some(*row),
                None => lookup_key(self@.entities, *id) is None,
            },
    {
        key_find(&self.entities, id)
    }

    /// The stored value row for an id.
    pub fn get_value(&self, id: &Uid) -> (r: Option<&ValueOp>)
        requires
            self.wf(),
        ensures
            match r {
                Some(row) => lookup_key(self@.values, *id) == Some(*row),
                None => lookup_key(self@.values, *id) is None,
            },
    {
        key_find(&self.values, id)
    }

    /// The stored relation row for an id.
    pub fn get_relation(&self, id: &Uid) -> (r: Option<&RelationItem>)
        requires
            self.wf(),
        ensures
            match r {
                Some(row) => lookup_key(self@.relations, *id) == Some(*row),
                None => lookup_key(self@.relations, *id) is None,
            },
    {
        key_find(&self.relations, id)
    }

    /// A member row is stored for the pair.
    pub fn has_member(&self, space_id: &Uid, address: &String) -> (r: bool)
        ensures
            r == has_pair(self@.members, *space_id, address@),
    {
        Self::pair_probe(&self.members, space_id, address).is_some()
    }

    /// An editor row is stored for the pair.
    pub fn has_editor(&self, space_id: &Uid, address: &String) -> (r: bool)
        ensures
            r == has_pair(self@.editors, *space_id, address@),
    {
        Self::pair_probe(&self.editors, space_id, address).is_some()
    }

    /// A subspace edge is stored.
    pub fn has_subspace(&self, parent: &Uid, child: &Uid) -> (r: bool)
        ensures
            r == has_edge(self@.subspaces, *parent, *child),
    {
        let mut j: usize = 0;
        let n = self.subspaces.len();
        while j < n
            invariant
                j <= n,
                n == self.subspaces@.len(),
                forall|k: int|
                    0 <= k < j ==> !((#[trigger] self.subspaces@[k]).parent_space_id == *parent
                        && self.subspaces@[k].child_space_id == *child),
            decreases n - j,
        {
            if self.subspaces[j].parent_space_id == *parent && self.subspaces[j].child_space_id
                == *child {
                return true;
            }
            j = j + 1;
        }
        proof {
            if has_edge(self.subspaces@, *parent, *child) {
                let k = choose|k: int|
                    0 <= k < self.subspaces@.len()
                        && (#[trigger] self.subspaces@[k]).parent_space_id == *parent
                        && self.subspaces@[k].child_space_id == *child;
            }
        }
        false
    }

    /// The stored proposal row for an id.
    pub fn get_proposal_by_id(&self, id: &Uid) -> (r: Option<&ProposalItem>)
        requires
            self.wf(),
        ensures
            match r {
                Some(row) => lookup_key(self@.proposals, *id) == Some(*row),
                None => lookup_key(self@.proposals, *id) is None,
            },
    {
        key_find(&self.proposals, id)
    }

    /// The stored space row for an id.
    pub fn get_space(&self, id: &Uid) -> (r: Option<&SpaceRow>)
        requires
            self.wf(),
        ensures
            match r {
                Some(row) => lookup_key(self@.spaces, *id) == Some(*row),
                None => lookup_key(self@.spaces, *id) is None,
            },
    {
        key_find(&self.spaces, id)
    }
}

/// Find a reference to the row carrying `id`, if any.
fn key_find<'a, T: Keyed>(v: &'a Vec<T>, id: &Uid) -> (r: Option<&'a T>)
    requires
        unique_keys(v@),
    ensures
        match r {
            Some(row) => lookup_key(v@, *id) == Some(*row),
            None => lookup_key(v@, *id) is None,
        },
{
    match key_probe(v, id) {
        Some(j) => {
            proof {
                lemma_key_index_unique(v@, *id, j as int);
            }
            Some(&v[j])
        },
        None => {
            proof {
                if has_key(v@, *id) {
                    let k = key_index(v@, *id);
                }
            }
            None
        },
    }
}

/// Appending a fresh pair keeps pairs unique.
proof fn lemma_add_pair_unique(s: Seq<MembershipRow>, row: MembershipRow)
    requires
        unique_pairs(s),
        !has_pair(s, row.space_id, row.address@),
    ensures
        unique_pairs(s.push(row)),
{
    let t = s.push(row);
    assert forall|a: int, b: int| 0 <= a < b < t.len() implies !((#[trigger] t[a]).space_id
        == (#[trigger] t[b]).space_id && t[a].address@ == t[b].address@) by {
        if b == t.len() - 1 {
            assert(t[a] == s[a]);
            if s[a].space_id == row.space_id && s[a].address@ == row.address@ {
                assert(has_pair(s, row.space_id, row.address@));
            }
        } else {
            assert(t[a] == s[a] && t[b] == s[b]);
        }
    }
}

/// Removing a pair keeps pairs unique.
proof fn lemma_remove_pair_unique(s: Seq<MembershipRow>, space: Uid, address: Seq<char>)
    requires
        unique_pairs(s),
    ensures
        unique_pairs(remove_pair(s, space, address)),
    decreases s.len(),
{
    if s.len() > 0 {
        let front = s.drop_last();
        assert(unique_pairs(front)) by {
            assert forall|a: int, b: int| 0 <= a < b < front.len() implies
                !((#[trigger] front[a]).space_id == (#[trigger] front[b]).space_id
                    && front[a].address@ == front[b].address@) by {
                assert(front[a] == s[a] && front[b] == s[b]);
            }
        }
        lemma_remove_pair_unique(front, space, address);
        let ft = remove_pair(front, space, address);
        if !(s.last().space_id == space && s.last().address@ == address) {
            let t = remove_pair(s, space, address);
            assert(t == ft.push(s.last()));
            lemma_remove_pair_subset(front, space, address);
            assert forall|a: int, b: int| 0 <= a < b < t.len() implies !((#[trigger] t[a]).space_id
                == (#[trigger] t[b]).space_id && t[a].address@ == t[b].address@) by {
                if b == t.len() - 1 {
                    assert(t[a] == ft[a]);
                    let k = choose|k: int| 0 <= k < front.len() && front[k] == ft[a];
                    assert(s[k] == front[k]);
                    assert(!(s[k].space_id == s[s.len() - 1].space_id && s[k].address@
                        == s[s.len() - 1].address@));
                } else {
                    assert(t[a] == ft[a] && t[b] == ft[b]);
                }
            }
        }
    }
}

/// Every row of a pair-removal's result is a row of its input.
pub open spec fn remove_pair_subset(s: Seq<MembershipRow>, space: Uid, address: Seq<char>) -> bool {
    forall|a: int|
        0 <= a < remove_pair(s, space, address).len() ==> exists|k: int|
            0 <= k < s.len() && s[k] == #[trigger] remove_pair(s, space, address)[a]
}

/// Rows survive a pair removal only from the input.
proof fn lemma_remove_pair_subset(s: Seq<MembershipRow>, space: Uid, address: Seq<char>)
    ensures
        remove_pair_subset(s, space, address),
    decreases s.len(),
{
    if s.len() > 0 {
        let front = s.drop_last();
        lemma_remove_pair_subset(front, space, address);
        let ft = remove_pair(front, space, address);
        let t = remove_pair(s, space, address);
        assert forall|a: int| 0 <= a < t.len() implies exists|k: int|
            0 <= k < s.len() && s[k] == #[trigger] t[a] by {
            if a < ft.len() {
                assert(t[a] == ft[a]);
                let k = choose|k: int| 0 <= k < front.len() && front[k] == ft[a];
                assert(s[k] == t[a]);
            } else {
                assert(t[a] == s[s.len() - 1]);
            }
        }
    }
}

/// Removing an edge keeps edges unique.
proof fn lemma_remove_edge_unique(s: Seq<SubspaceRow>, parent: Uid, child: Uid)
    requires
        unique_edges(s),
    ensures
        unique_edges(remove_edge(s, parent, child)),
    decreases s.len(),
{
    if s.len() > 0 {
        let front = s.drop_last();
        assert(unique_edges(front)) by {
            assert forall|a: int, b: int| 0 <= a < b < front.len() implies #[trigger] front[a]
                != #[trigger] front[b] by {
                assert(front[a] == s[a] && front[b] == s[b]);
            }
        }
        lemma_remove_edge_unique(front, parent, child);
        let ft = remove_edge(front, parent, child);
        if !(s.last().parent_space_id == parent && s.last().child_space_id == child) {
            let t = remove_edge(s, parent, child);
            assert(t == ft.push(s.last()));
            lemma_remove_edge_subset(front, parent, child);
            assert forall|a: int, b: int| 0 <= a < b < t.len() implies #[trigger] t[a]
                != #[trigger] t[b] by {
                if b == t.len() - 1 {
                    assert(t[a] == ft[a]);
                    let k = choose|k: int| 0 <= k < front.len() && front[k] == ft[a];
                    assert(s[k] == front[k]);
                    assert(s[k] != s[s.len() - 1]);
                } else {
                    assert(t[a] == ft[a] && t[b] == ft[b]);
                }
            }
        }
    }
}

/// Rows survive an edge removal only from the input.
proof fn lemma_remove_edge_subset(s: Seq<SubspaceRow>, parent: Uid, child: Uid)
    ensures
        forall|a: int|
            0 <= a < remove_edge(s, parent, child).len() ==> exists|k: int|
                0 <= k < s.len() && s[k] == #[trigger] remove_edge(s, parent, child)[a],
    decreases s.len(),
{
    if s.len() > 0 {
        let front = s.drop_last();
        lemma_remove_edge_subset(front, parent, child);
        let ft = remove_edge(front, parent, child);
        let t = remove_edge(s, parent, child);
        assert forall|a: int| 0 <= a < t.len() implies exists|k: int|
            0 <= k < s.len() && s[k] == #[trigger] t[a] by {
            if a < ft.len() {
                assert(t[a] == ft[a]);
                let k = choose|k: int| 0 <= k < front.len() && front[k] == ft[a];
                assert(s[k] == t[a]);
            } else {
                assert(t[a] == s[s.len() - 1]);
            }
        }
    }
}

} // verus!

verus! {

/// The map a property row sequence denotes: each id to its data type.
pub open spec fn properties_map(s: Seq<PropertyItem>) -> Map<Uid, crate::properties::DataType>
    decreases s.len(),
{
    if s.len() == 0 {
        Map::empty()
    } else {
        properties_map(s.drop_last()).insert(s.last().id, s.last().data_type)
    }
}

impl crate::properties::PropertiesCache {
    /// Hydrate the in-memory cache from the stored properties table, so
    /// rows written in earlier runs validate values from the first
    /// block.
    pub fn from_storage(storage: &Storage) -> (r: crate::properties::PropertiesCache)
        ensures
            r.wf(),
            r@ == properties_map(storage@.properties),
    {
        let mut cache = crate::properties::PropertiesCache::new();
        let rows = &storage.properties;
        let mut i: usize = 0;
        while i < rows.len()
            invariant
                i <= rows@.len(),
                rows@ == storage@.properties,
                cache.wf(),
                cache@ == properties_map(rows@.take(i as int)),
            decreases rows@.len() - i,
        {
            let ghost pre = rows@.take(i as int);
            let row = rows[i];
            cache.insert(&row.id, row.data_type);
            proof {
                assert(rows@.take(i + 1 as int).drop_last() =~= pre);
                assert(rows@.take(i + 1 as int).last() == rows@[i as int]);
            }
            i = i + 1;
        }
        proof {
            assert(rows@.take(rows@.len() as int) =~= rows@);
        }
        cache
    }
}

} // verus!

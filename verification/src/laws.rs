//! The laws the pipeline keeps, stated and proved once, over the same
//! spec functions the executable contracts use.

use vstd::prelude::*;
use crate::chain::GeoGovernancePluginCreated;
use crate::handlers::add_pairs_all;
use crate::ids::{
    cased_char, cased_chars, checksum_chars, has_hex_prefix, lower_char, lower_chars, proposal_seed,
    spec_space_id, space_seed,
};
use crate::preprocess::{created_for_dao, find_gov, promoted_editors, spec_match_one, dedup_texts, has_text};
use crate::properties::PropertyItem;
use crate::resolver::CursorRow;
use crate::storage::{
    has_key, has_pair, insert_new_only, insert_spaces_seq, Keyed, lookup_key, MembershipRow,
    remove_values, SpaceRow, SpaceType, unique_keys, upsert_all, upsert_key, value_in_space,
    lemma_lookup_upsert, lemma_lookup_remove,
};
use crate::uid::{Uid, uid_bytes, uid_of_bytes};
use crate::values::{canonical_value_ids, lemma_filter_populated_subset, set_op_matches, SetSource, spec_value_id, unset_op_matches, UnsetSource, ValueOp, filter_populated};
use crate::{AddedMember, CreatedSpace};

verus! {

// ---------------------------------------------------------------------
// Space-plugin matching is total and exclusive; public wins.
// ---------------------------------------------------------------------

/// A DAO with a governance plugin in the batch always finds one.
proof fn lemma_find_gov_some(gov: Seq<GeoGovernancePluginCreated>, dao: Seq<char>)
    requires
        exists|k: int| 0 <= k < gov.len() && (#[trigger] gov[k]).dao_address@ == dao,
    ensures
        find_gov(gov, dao) is Some,
        find_gov(gov, dao)->Some_0.dao_address@ == dao,
    decreases gov.len(),
{
    if gov[0].dao_address@ == dao {
    } else {
        let t = gov.skip(1);
        let k = choose|k: int| 0 <= k < gov.len() && (#[trigger] gov[k]).dao_address@ == dao;
        assert(t[k - 1] == gov[k]);
        lemma_find_gov_some(t, dao);
    }
}

/// Every created space yields at most one record, and a space whose DAO
/// carries a governance plugin in the same batch yields a public one —
/// public strictly wins over personal.
pub proof fn law_space_match_exclusive(
    space: crate::chain::GeoSpaceCreated,
    gov: Seq<GeoGovernancePluginCreated>,
    pers: Seq<crate::chain::GeoPersonalSpaceAdminPluginCreated>,
)
    ensures
        spec_match_one(space, gov, pers).len() <= 1,
        (exists|k: int|
            0 <= k < gov.len() && (#[trigger] gov[k]).dao_address@ == space.dao_address@)
            ==> spec_match_one(space, gov, pers) =~= seq![
            CreatedSpace::Public(
                crate::PublicSpace {
                    dao_address: space.dao_address,
                    space_address: space.space_address,
                    membership_plugin: find_gov(
                        gov,
                        space.dao_address@,
                    )->Some_0.member_access_address,
                    governance_plugin: find_gov(
                        gov,
                        space.dao_address@,
                    )->Some_0.main_voting_address,
                },
            ),
        ],
{
    if exists|k: int|
        0 <= k < gov.len() && (#[trigger] gov[k]).dao_address@ == space.dao_address@ {
        lemma_find_gov_some(gov, space.dao_address@);
    }
}

/// The exclusivity's other half: with no governance plugin for the DAO,
/// a matching personal plugin yields exactly one personal record.
pub proof fn law_space_match_personal(
    space: crate::chain::GeoSpaceCreated,
    gov: Seq<GeoGovernancePluginCreated>,
    pers: Seq<crate::chain::GeoPersonalSpaceAdminPluginCreated>,
)
    requires
        forall|k: int| 0 <= k < gov.len() ==> (#[trigger] gov[k]).dao_address@
            != space.dao_address@,
        exists|k: int| 0 <= k < pers.len() && (#[trigger] pers[k]).dao_address@
            == space.dao_address@,
    ensures
        spec_match_one(space, gov, pers).len() == 1,
        spec_match_one(space, gov, pers)[0] matches CreatedSpace::Personal(p) && p.dao_address@
            == space.dao_address@,
{
    lemma_find_gov_none_all(gov, space.dao_address@);
    lemma_find_personal_some(pers, space.dao_address@);
}

/// With no plugin for the DAO in the batch, the search finds none.
proof fn lemma_find_gov_none_all(gov: Seq<GeoGovernancePluginCreated>, dao: Seq<char>)
    requires
        forall|k: int| 0 <= k < gov.len() ==> (#[trigger] gov[k]).dao_address@ != dao,
    ensures
        find_gov(gov, dao) is None,
    decreases gov.len(),
{
    if gov.len() > 0 {
        let t = gov.skip(1);
        assert forall|k: int| 0 <= k < t.len() implies (#[trigger] t[k]).dao_address@ != dao by {
            assert(t[k] == gov[k + 1]);
        }
        lemma_find_gov_none_all(t, dao);
    }
}

/// A DAO with a personal plugin in the batch always finds one.
proof fn lemma_find_personal_some(
    pers: Seq<crate::chain::GeoPersonalSpaceAdminPluginCreated>,
    dao: Seq<char>,
)
    requires
        exists|k: int| 0 <= k < pers.len() && (#[trigger] pers[k]).dao_address@ == dao,
    ensures
        crate::preprocess::find_personal(pers, dao) is Some,
        crate::preprocess::find_personal(pers, dao)->Some_0.dao_address@ == dao,
    decreases pers.len(),
{
    if pers[0].dao_address@ == dao {
    } else {
        let t = pers.skip(1);
        let k = choose|k: int| 0 <= k < pers.len() && (#[trigger] pers[k]).dao_address@ == dao;
        assert(t[k - 1] == pers[k]);
        lemma_find_personal_some(t, dao);
    }
}

/// Once a public space row is stored for an id, no later batch demotes
/// it: the row for that id stays public through any insert batch.
pub proof fn law_public_space_stays(s: Seq<SpaceRow>, items: Seq<SpaceRow>, id: Uid)
    requires
        unique_keys(s),
        lookup_key(s, id) matches Some(row) && row.space_type == SpaceType::Public,
    ensures
        unique_keys(insert_spaces_seq(s, items)),
        lookup_key(insert_spaces_seq(s, items), id) == lookup_key(s, id),
    decreases items.len(),
{
    if items.len() > 0 {
        law_public_space_stays(s, items.drop_last(), id);
        let rest = insert_spaces_seq(s, items.drop_last());
        let x = items.last();
        if has_key(rest, x.key()) {
            if lookup_key(rest, x.key())->Some_0.space_type == SpaceType::Personal && x.space_type
                == SpaceType::Public {
                lemma_lookup_upsert(rest, x, id);
                if x.key() == id {
                    assert(lookup_key(rest, id)->Some_0.space_type == SpaceType::Public);
                }
            }
        } else {
            if x.key() == id {
                assert(has_key(rest, id));
            }
            lemma_lookup_push_other(rest, x, id);
        }
    }
}

/// Appending a row with a fresh key leaves every other key's lookup
/// unchanged.
proof fn lemma_lookup_push_other<T: Keyed>(s: Seq<T>, x: T, id: Uid)
    requires
        unique_keys(s),
        !has_key(s, x.key()),
        x.key() != id,
    ensures
        unique_keys(s.push(x)),
        lookup_key(s.push(x), id) == lookup_key(s, id),
{
    lemma_lookup_upsert(s, x, id);
    assert(upsert_key(s, x) == s.push(x));
}

// ---------------------------------------------------------------------
// A property's data type is write-once.
// ---------------------------------------------------------------------

/// Inserting properties never overwrites: the stored row of an id that
/// is already present is exactly what it was, whatever the batch says.
pub proof fn law_property_write_once(s: Seq<PropertyItem>, items: Seq<PropertyItem>, id: Uid)
    requires
        unique_keys(s),
        has_key(s, id),
    ensures
        unique_keys(insert_new_only(s, items)),
        lookup_key(insert_new_only(s, items), id) == lookup_key(s, id),
    decreases items.len(),
{
    lemma_insert_new_only_wf(s, items);
    if items.len() > 0 {
        law_property_write_once(s, items.drop_last(), id);
        let rest = insert_new_only(s, items.drop_last());
        let x = items.last();
        if has_key(rest, x.key()) {
        } else {
            assert(x.key() != id) by {
                lemma_insert_new_only_grows(s, items.drop_last(), id);
            }
            lemma_lookup_push_other(rest, x, id);
        }
    }
}

/// Keys only accumulate through a no-overwrite insert.
proof fn lemma_insert_new_only_grows(s: Seq<PropertyItem>, items: Seq<PropertyItem>, id: Uid)
    requires
        has_key(s, id),
    ensures
        has_key(insert_new_only(s, items), id),
    decreases items.len(),
{
    if items.len() > 0 {
        lemma_insert_new_only_grows(s, items.drop_last(), id);
        let rest = insert_new_only(s, items.drop_last());
        let x = items.last();
        if !has_key(rest, x.key()) {
            let k = choose|k: int| 0 <= k < rest.len() && (#[trigger] rest[k]).key() == id;
            assert(rest.push(x)[k].key() == id);
        }
    }
}

/// A no-overwrite insert keeps keys unique.
proof fn lemma_insert_new_only_wf(s: Seq<PropertyItem>, items: Seq<PropertyItem>)
    requires
        unique_keys(s),
    ensures
        unique_keys(insert_new_only(s, items)),
    decreases items.len(),
{
    if items.len() > 0 {
        lemma_insert_new_only_wf(s, items.drop_last());
        let rest = insert_new_only(s, items.drop_last());
        let x = items.last();
        if !has_key(rest, x.key()) {
            let t = rest.push(x);
            assert forall|a: int, b: int| 0 <= a < b < t.len() implies (#[trigger] t[a]).key()
                != (#[trigger] t[b]).key() by {
                if b == t.len() - 1 {
                    assert(t[a] == rest[a]);
                    if rest[a].key() == x.key() {
                        assert(has_key(rest, x.key()));
                    }
                } else {
                    assert(t[a] == rest[a] && t[b] == rest[b]);
                }
            }
        }
    }
}

// ---------------------------------------------------------------------
// A value id is a pure function of its triple.
// ---------------------------------------------------------------------

/// Two set operations over the same `(entity, property, space)` carry
/// the same synthetic id, whatever their contents: the id depends on
/// the triple alone.
pub proof fn law_value_id_pure(
    src1: SetSource,
    dt1: Option<crate::properties::DataType>,
    v1: ValueOp,
    src2: SetSource,
    dt2: Option<crate::properties::DataType>,
    v2: ValueOp,
    space: Uid,
)
    requires
        set_op_matches(src1, dt1, v1, space),
        set_op_matches(src2, dt2, v2, space),
        src1.entity == src2.entity,
        src1.property == src2.property,
    ensures
        v1.id == v2.id,
        v1.id == spec_value_id(src1.entity, src1.property, space),
{
}

// ---------------------------------------------------------------------
// A SET followed by an UNSET of the same triple leaves no row.
// ---------------------------------------------------------------------

/// What a batch upsert leaves at a key: the last batch row carrying it,
/// or what was there.
pub proof fn lemma_lookup_upsert_all<T: Keyed>(s: Seq<T>, items: Seq<T>, id: Uid)
    requires
        unique_keys(s),
    ensures
        unique_keys(upsert_all(s, items)),
        lookup_key(upsert_all(s, items), id) == (if has_key(items, id) {
            Some(items[crate::storage::key_index(items, id)])
        } else {
            lookup_key(s, id)
        }) || exists|j: int|
            0 <= j < items.len() && (#[trigger] items[j]).key() == id && lookup_key(
                upsert_all(s, items),
                id,
            ) == Some(items[j]),
    decreases items.len(),
{
    if items.len() > 0 {
        lemma_lookup_upsert_all(s, items.drop_last(), id);
        let rest = upsert_all(s, items.drop_last());
        let x = items.last();
        lemma_lookup_upsert(rest, x, id);
        if id == x.key() {
            assert((#[trigger] items[items.len() - 1]).key() == id && lookup_key(
                upsert_all(s, items),
                id,
            ) == Some(items[items.len() - 1]));
        } else {
            if exists|j: int|
                0 <= j < items.drop_last().len() && (#[trigger] items.drop_last()[j]).key() == id
                    && lookup_key(rest, id) == Some(items.drop_last()[j]) {
                let j = choose|j: int|
                    0 <= j < items.drop_last().len() && (#[trigger] items.drop_last()[j]).key()
                        == id && lookup_key(rest, id) == Some(items.drop_last()[j]);
                assert((#[trigger] items[j]).key() == id && lookup_key(upsert_all(s, items), id)
                    == Some(items[j]));
            } else {
                if has_key(items, id) {
                    let k = crate::storage::key_index(items, id);
                    if has_key(items.drop_last(), id) {
                    } else {
                        let k2 = choose|k2: int|
                            0 <= k2 < items.len() && (#[trigger] items[k2]).key() == id;
                        if k2 < items.len() - 1 {
                            assert(items.drop_last()[k2].key() == id);
                        }
                        assert(k2 == items.len() - 1);
                        assert(id == x.key());
                    }
                }
            }
        }
    }
}

/// Every row an upsert batch writes for the values table keeps its own
/// space, so deletions scoped to that space can always reach it.
pub proof fn lemma_upserted_value_in_space(s: Seq<ValueOp>, items: Seq<ValueOp>, id: Uid, space: Uid)
    requires
        unique_keys(s),
        match lookup_key(s, id) {
            Some(row) => row.space_id == space,
            None => true,
        },
        forall|j: int| 0 <= j < items.len() ==> (#[trigger] items[j]).space_id == space,
    ensures
        unique_keys(upsert_all(s, items)),
        match lookup_key(upsert_all(s, items), id) {
            Some(row) => row.space_id == space,
            None => true,
        },
{
    lemma_lookup_upsert_all(s, items, id);
    if lookup_key(upsert_all(s, items), id) is Some {
        if has_key(items, id) && lookup_key(upsert_all(s, items), id) == Some(
            items[crate::storage::key_index(items, id)],
        ) {
            let k = crate::storage::key_index(items, id);
            assert(0 <= k < items.len() && items[k].key() == id) by {
                let w = choose|w: int| 0 <= w < items.len() && (#[trigger] items[w]).key() == id;
            }
        }
    }
}

/// Scoped removal never revives a key: once the row for `id` is gone
/// (or was never there), it stays gone through the rest of the batch;
/// and a batch naming `id` removes it, provided the row (if any) is in
/// the batch's space.
pub proof fn lemma_remove_values_kills(s: Seq<ValueOp>, items: Seq<ValueOp>, id: Uid, space: Uid)
    requires
        unique_keys(s),
        match lookup_key(s, id) {
            Some(row) => row.space_id == space,
            None => true,
        },
        exists|j: int| 0 <= j < items.len() && (#[trigger] items[j]).id == id,
    ensures
        unique_keys(remove_values(s, items, space)),
        lookup_key(remove_values(s, items, space), id) is None,
    decreases items.len(),
{
    lemma_remove_values_wf(s, items, space);
    lemma_remove_values_space(s, items, id, space);
    let rest = remove_values(s, items.drop_last(), space);
    let x = items.last();
    if exists|j: int| 0 <= j < items.drop_last().len() && (#[trigger] items.drop_last()[j]).id
        == id {
        lemma_remove_values_kills(s, items.drop_last(), id, space);
        lemma_remove_values_wf(s, items.drop_last(), space);
        if value_in_space(rest, x.id, space) {
            lemma_lookup_remove(rest, x.id, id);
        }
    } else {
        let j = choose|j: int| 0 <= j < items.len() && (#[trigger] items[j]).id == id;
        assert(j == items.len() - 1) by {
            if j < items.len() - 1 {
                assert(items.drop_last()[j].id == id);
            }
        }
        assert(x.id == id);
        lemma_remove_values_wf(s, items.drop_last(), space);
        if value_in_space(rest, id, space) {
            lemma_lookup_remove(rest, id, id);
        } else {
            assert(lookup_key(rest, id) is None || lookup_key(rest, id)->Some_0.space_id
                != space);
            assert(lookup_key(rest, id) is None);
        }
    }
}

/// Scoped removal keeps keys unique.
proof fn lemma_remove_values_wf(s: Seq<ValueOp>, items: Seq<ValueOp>, space: Uid)
    requires
        unique_keys(s),
    ensures
        unique_keys(remove_values(s, items, space)),
    decreases items.len(),
{
    if items.len() > 0 {
        lemma_remove_values_wf(s, items.drop_last(), space);
        let rest = remove_values(s, items.drop_last(), space);
        if value_in_space(rest, items.last().id, space) {
            lemma_lookup_remove(rest, items.last().id, items.last().id);
        }
    }
}

/// Scoped removal preserves "the row at `id`, if any, is in `space`".
proof fn lemma_remove_values_space(s: Seq<ValueOp>, items: Seq<ValueOp>, id: Uid, space: Uid)
    requires
        unique_keys(s),
        match lookup_key(s, id) {
            Some(row) => row.space_id == space,
            None => true,
        },
    ensures
        match lookup_key(remove_values(s, items, space), id) {
            Some(row) => row.space_id == space,
            None => true,
        },
    decreases items.len(),
{
    if items.len() > 0 {
        lemma_remove_values_space(s, items.drop_last(), id, space);
        lemma_remove_values_wf(s, items.drop_last(), space);
        let rest = remove_values(s, items.drop_last(), space);
        if value_in_space(rest, items.last().id, space) {
            lemma_lookup_remove(rest, items.last().id, id);
        }
    }
}

/// A SET followed by an UNSET of the same triple within one edit leaves
/// no value row for that triple: the batch insert happens first, the
/// batch delete second, and the delete names the triple's id.
pub proof fn law_set_then_unset(
    pre: Seq<ValueOp>,
    created: Seq<ValueOp>,
    deleted: Seq<ValueOp>,
    entity: Uid,
    property: Uid,
    space: Uid,
    j: int,
    usrc: UnsetSource,
)
    requires
        unique_keys(pre),
        match lookup_key(pre, spec_value_id(entity, property, space)) {
            Some(row) => row.space_id == space,
            None => true,
        },
        forall|k: int| 0 <= k < created.len() ==> (#[trigger] created[k]).space_id == space,
        0 <= j < deleted.len(),
        usrc.entity == entity && usrc.property == property,
        unset_op_matches(usrc, deleted[j], space),
    ensures
        lookup_key(
            remove_values(upsert_all(pre, filter_populated(created)), deleted, space),
            spec_value_id(entity, property, space),
        ) is None,
{
    let vid = spec_value_id(entity, property, space);
    lemma_filter_populated_subset(created);
    let kept = filter_populated(created);
    assert(forall|k: int| 0 <= k < kept.len() ==> (#[trigger] kept[k]).space_id == space) by {
        assert forall|k: int| 0 <= k < kept.len() implies (#[trigger] kept[k]).space_id
            == space by {
            let w = choose|w: int| 0 <= w < created.len() && created[w] == kept[k];
        }
    }
    lemma_upserted_value_in_space(pre, kept, vid, space);
    assert(deleted[j].id == vid);
    lemma_remove_values_kills(upsert_all(pre, kept), deleted, vid, space);
}

// ---------------------------------------------------------------------
// An editor of a space created in the same block is an initial member.
// ---------------------------------------------------------------------

/// Every added editor whose DAO created a space in the block appears
/// among the promoted members, with the same DAO and address.
pub proof fn law_initial_member(editors: Seq<AddedMember>, spaces: Seq<CreatedSpace>, i: int)
    requires
        0 <= i < editors.len(),
        created_for_dao(spaces, editors[i].dao_address@),
    ensures
        exists|k: int|
            0 <= k < promoted_editors(editors, spaces).len() && #[trigger] promoted_editors(
                editors,
                spaces,
            )[k] == editors[i],
    decreases editors.len(),
{
    let t = promoted_editors(editors, spaces);
    if i == editors.len() - 1 {
        assert(t[t.len() - 1] == editors[i]);
    } else {
        assert(editors.drop_last()[i] == editors[i]);
        law_initial_member(editors.drop_last(), spaces, i);
        let ft = promoted_editors(editors.drop_last(), spaces);
        let k = choose|k: int| 0 <= k < ft.len() && #[trigger] ft[k] == editors[i];
        assert(t[k] == editors[i]);
    }
}

/// A membership row folded into the members table is a member row
/// afterwards.
pub proof fn law_member_added(pre: Seq<MembershipRow>, rows: Seq<MembershipRow>, i: int)
    requires
        0 <= i < rows.len(),
    ensures
        has_pair(add_pairs_all(pre, rows), rows[i].space_id, rows[i].address@),
    decreases rows.len(),
{
    let t = add_pairs_all(pre, rows);
    let rest = add_pairs_all(pre, rows.drop_last());
    let x = rows.last();
    if i == rows.len() - 1 {
        if has_pair(rest, x.space_id, x.address@) {
        } else {
            assert(t[t.len() - 1] == x);
        }
    } else {
        assert(rows.drop_last()[i] == rows[i]);
        law_member_added(pre, rows.drop_last(), i);
        if has_pair(rest, x.space_id, x.address@) {
        } else {
            let k = choose|k: int|
                0 <= k < rest.len() && (#[trigger] rest[k]).space_id == rows[i].space_id
                    && rest[k].address@ == rows[i].address@;
            assert(t[k] == rest[k]);
        }
    }
}

// ---------------------------------------------------------------------
// One cache fetch per distinct URI.
// ---------------------------------------------------------------------

/// A URI that appears any number of times in the collected list appears
/// exactly once after deduplication: it is in the deduplicated list,
/// and at one index only — so it is fetched once.
pub proof fn law_one_fetch_per_uri(uris: Seq<String>, t: Seq<char>)
    requires
        has_text(uris, t),
    ensures
        has_text(dedup_texts(uris), t),
        forall|a: int, b: int|
            0 <= a < dedup_texts(uris).len() && 0 <= b < dedup_texts(uris).len()
                && (#[trigger] dedup_texts(uris)[a])@ == t && (#[trigger] dedup_texts(
                uris,
            )[b])@ == t ==> a == b,
{
    crate::preprocess::lemma_dedup_texts(uris);
    assert forall|a: int, b: int|
        0 <= a < dedup_texts(uris).len() && 0 <= b < dedup_texts(uris).len()
            && (#[trigger] dedup_texts(uris)[a])@ == t && (#[trigger] dedup_texts(uris)[b])@
            == t implies a == b by {
        if a < b {
            assert(dedup_texts(uris)[a]@ != dedup_texts(uris)[b]@);
        } else if b < a {
            assert(dedup_texts(uris)[b]@ != dedup_texts(uris)[a]@);
        }
    }
}

// ---------------------------------------------------------------------
// Cursor block numbers never decrease.
// ---------------------------------------------------------------------

/// The cursor store admits only non-decreasing writes per service: a
/// persisted row can only be followed by rows with a block number at
/// least as large, so the numbers a service ever reads back are
/// non-decreasing across restarts.
pub proof fn law_cursor_monotonic(before: CursorRow, block_number: u64, after: CursorRow)
    requires
        before.block_number <= block_number,
        after.block_number == block_number,
    ensures
        before.block_number <= after.block_number,
{
}

// ---------------------------------------------------------------------
// Replaying the same writes leaves the same state.
// ---------------------------------------------------------------------

/// Replaying a no-overwrite property batch changes nothing: the second
/// pass finds every id present and keeps every row.
pub proof fn law_replay_properties(s: Seq<PropertyItem>, items: Seq<PropertyItem>)
    ensures
        insert_new_only(insert_new_only(s, items), items) == insert_new_only(s, items),
    decreases items.len(),
{
    lemma_replay_new_only(insert_new_only(s, items), items, s, items);
}

/// A second no-overwrite pass over ids the state already holds is a
/// no-op.
proof fn lemma_replay_new_only(
    t: Seq<PropertyItem>,
    items: Seq<PropertyItem>,
    s0: Seq<PropertyItem>,
    all: Seq<PropertyItem>,
)
    requires
        t == insert_new_only(s0, all),
        forall|j: int| 0 <= j < items.len() ==> exists|w: int|
            0 <= w < all.len() && (#[trigger] items[j]).key() == (#[trigger] all[w]).key(),
    ensures
        insert_new_only(t, items) == t,
    decreases items.len(),
{
    if items.len() > 0 {
        assert forall|j: int| 0 <= j < items.drop_last().len() implies exists|w: int|
            0 <= w < all.len() && (#[trigger] items.drop_last()[j]).key()
                == (#[trigger] all[w]).key() by {
            assert(items.drop_last()[j] == items[j]);
            let w = choose|w: int|
                0 <= w < all.len() && (#[trigger] items[j]).key() == (#[trigger] all[w]).key();
        }
        lemma_replay_new_only(t, items.drop_last(), s0, all);
        let x = items.last();
        let w = choose|w: int|
            0 <= w < all.len() && (#[trigger] items[items.len() - 1]).key()
                == (#[trigger] all[w]).key();
        lemma_new_only_holds_batch_keys(s0, all, w);
        assert(has_key(t, x.key()));
    }
}

/// After a no-overwrite insert, every batch id has a row.
proof fn lemma_new_only_holds_batch_keys(s: Seq<PropertyItem>, items: Seq<PropertyItem>, w: int)
    requires
        0 <= w < items.len(),
    ensures
        has_key(insert_new_only(s, items), items[w].key()),
    decreases items.len(),
{
    let rest = insert_new_only(s, items.drop_last());
    let x = items.last();
    if w == items.len() - 1 {
        if has_key(rest, x.key()) {
            let k = choose|k: int| 0 <= k < rest.len() && (#[trigger] rest[k]).key() == x.key();
            assert(rest.push(x)[k].key() == x.key());
            assert(insert_new_only(s, items) == rest);
        } else {
            assert(rest.push(x)[rest.len() as int].key() == x.key());
        }
    } else {
        assert(items.drop_last()[w] == items[w]);
        lemma_new_only_holds_batch_keys(s, items.drop_last(), w);
        if has_key(rest, x.key()) {
        } else {
            let k = choose|k: int|
                0 <= k < rest.len() && (#[trigger] rest[k]).key() == items[w].key();
            assert(rest.push(x)[k].key() == items[w].key());
        }
    }
}

/// Replaying a value upsert batch leaves every lookup unchanged: the
/// row a key finds after one pass and after two is the same.
pub proof fn law_replay_upserts<T: Keyed>(s: Seq<T>, items: Seq<T>, id: Uid)
    requires
        unique_keys(s),
    ensures
        lookup_key(upsert_all(upsert_all(s, items), items), id) == lookup_key(
            upsert_all(s, items),
            id,
        ),
    decreases items.len(),
{
    lemma_lookup_upsert_all(s, items, id);
    let t = upsert_all(s, items);
    lemma_lookup_upsert_all(t, items, id);
    if exists|j: int|
        0 <= j < items.len() && (#[trigger] items[j]).key() == id && lookup_key(
            upsert_all(t, items),
            id,
        ) == Some(items[j]) {
        lemma_last_upsert_wins(s, items, id);
        lemma_last_upsert_wins(t, items, id);
    } else {
        if has_key(items, id) {
            let k = crate::storage::key_index(items, id);
            let w = choose|w: int| 0 <= w < items.len() && (#[trigger] items[w]).key() == id;
        }
    }
}

/// The row a batch upsert leaves at a key it writes is the last batch
/// row carrying it.
proof fn lemma_last_upsert_wins<T: Keyed>(s: Seq<T>, items: Seq<T>, id: Uid)
    requires
        unique_keys(s),
        has_key(items, id),
    ensures
        lookup_key(upsert_all(s, items), id) == Some(items[last_key_index(items, id)]),
    decreases items.len(),
{
    let rest = upsert_all(s, items.drop_last());
    let x = items.last();
    lemma_upsert_all_wf(s, items.drop_last());
    lemma_lookup_upsert(rest, x, id);
    if x.key() == id {
        assert(last_key_index(items, id) == items.len() - 1);
    } else {
        assert(has_key(items.drop_last(), id)) by {
            let k = choose|k: int| 0 <= k < items.len() && (#[trigger] items[k]).key() == id;
            assert(k < items.len() - 1);
            assert(items.drop_last()[k].key() == id);
        }
        lemma_last_upsert_wins(s, items.drop_last(), id);
        lemma_last_key_index_bounds(items.drop_last(), id);
        assert(last_key_index(items, id) == last_key_index(items.drop_last(), id));
        assert(items.drop_last()[last_key_index(items.drop_last(), id)]
            == items[last_key_index(items, id)]);
    }
}

/// `last_key_index` is in range and points at the key.
proof fn lemma_last_key_index_bounds<T: Keyed>(items: Seq<T>, id: Uid)
    requires
        has_key(items, id),
    ensures
        0 <= last_key_index(items, id) < items.len(),
        items[last_key_index(items, id)].key() == id,
    decreases items.len(),
{
    if items.last().key() == id {
    } else {
        assert(has_key(items.drop_last(), id)) by {
            let k = choose|k: int| 0 <= k < items.len() && (#[trigger] items[k]).key() == id;
            assert(k < items.len() - 1);
            assert(items.drop_last()[k].key() == id);
        }
        lemma_last_key_index_bounds(items.drop_last(), id);
        assert(items.drop_last()[last_key_index(items.drop_last(), id)]
            == items[last_key_index(items.drop_last(), id)]);
    }
}

/// The greatest index of `items` carrying `id`.
pub open spec fn last_key_index<T: Keyed>(items: Seq<T>, id: Uid) -> int
    recommends has_key(items, id),
    decreases items.len(),
{
    if items.len() == 0 {
        0
    } else if items.last().key() == id {
        items.len() - 1
    } else {
        last_key_index(items.drop_last(), id)
    }
}

/// Batch upserts keep keys unique.
proof fn lemma_upsert_all_wf<T: Keyed>(s: Seq<T>, items: Seq<T>)
    requires
        unique_keys(s),
    ensures
        unique_keys(upsert_all(s, items)),
    decreases items.len(),
{
    if items.len() > 0 {
        lemma_upsert_all_wf(s, items.drop_last());
        lemma_lookup_upsert(upsert_all(s, items.drop_last()), items.last(), items.last().key());
    }
}

/// Replaying an idempotent membership addition batch changes nothing.
pub proof fn law_replay_members(pre: Seq<MembershipRow>, rows: Seq<MembershipRow>)
    ensures
        add_pairs_all(add_pairs_all(pre, rows), rows) == add_pairs_all(pre, rows),
    decreases rows.len(),
{
    lemma_replay_pairs(add_pairs_all(pre, rows), rows, pre, rows);
}

/// A second pass of pair additions whose pairs the state already holds
/// is a no-op.
proof fn lemma_replay_pairs(
    t: Seq<MembershipRow>,
    rows: Seq<MembershipRow>,
    pre: Seq<MembershipRow>,
    all: Seq<MembershipRow>,
)
    requires
        t == add_pairs_all(pre, all),
        forall|j: int| 0 <= j < rows.len() ==> exists|w: int|
            0 <= w < all.len() && (#[trigger] rows[j]).space_id == (#[trigger] all[w]).space_id
                && rows[j].address@ == all[w].address@,
    ensures
        add_pairs_all(t, rows) == t,
    decreases rows.len(),
{
    if rows.len() > 0 {
        assert forall|j: int| 0 <= j < rows.drop_last().len() implies exists|w: int|
            0 <= w < all.len() && (#[trigger] rows.drop_last()[j]).space_id
                == (#[trigger] all[w]).space_id && rows.drop_last()[j].address@
                == all[w].address@ by {
            assert(rows.drop_last()[j] == rows[j]);
            let w = choose|w: int|
                0 <= w < all.len() && (#[trigger] rows[j]).space_id
                    == (#[trigger] all[w]).space_id && rows[j].address@ == all[w].address@;
        }
        lemma_replay_pairs(t, rows.drop_last(), pre, all);
        let x = rows.last();
        let w = choose|w: int|
            0 <= w < all.len() && (#[trigger] rows[rows.len() - 1]).space_id
                == (#[trigger] all[w]).space_id && rows[rows.len() - 1].address@
                == all[w].address@;
        law_member_added(pre, all, w);
        assert(has_pair(t, x.space_id, x.address@));
    }
}

// ---------------------------------------------------------------------
// The address checksum is case-insensitive, so derived ids are too.
// ---------------------------------------------------------------------

/// Two ASCII addresses that agree up to letter case produce the same
/// checksum form.
pub proof fn law_checksum_case_insensitive(a: Seq<char>, b: Seq<char>)
    requires
        vstd::utf8::is_ascii_chars(a),
        vstd::utf8::is_ascii_chars(b),
        lower_chars(a) == lower_chars(b),
    ensures
        checksum_chars(a) == checksum_chars(b),
{
    assert(lower_chars(a).len() == a.len());
    assert(lower_chars(b).len() == b.len());
    assert(a.len() == b.len());
    assert(has_hex_prefix(a) == has_hex_prefix(b)) by {
        if a.len() >= 2 {
            assert(lower_chars(a)[0] == lower_char(a[0]) && lower_chars(b)[0] == lower_char(
                b[0],
            ));
            assert(lower_chars(a)[1] == lower_char(a[1]) && lower_chars(b)[1] == lower_char(
                b[1],
            ));
            assert(a[0] <= '\u{7f}' && b[0] <= '\u{7f}' && a[1] <= '\u{7f}' && b[1]
                <= '\u{7f}');
        }
    }
    let ba = if has_hex_prefix(a) { a.skip(2) } else { a };
    let bb = if has_hex_prefix(b) { b.skip(2) } else { b };
    assert(lower_chars(ba) =~= lower_chars(bb)) by {
        assert forall|i: int| 0 <= i < ba.len() implies lower_chars(ba)[i] == lower_chars(
            bb,
        )[i] by {
            if has_hex_prefix(a) {
                assert(lower_chars(a)[i + 2] == lower_char(a[i + 2]));
                assert(lower_chars(b)[i + 2] == lower_char(b[i + 2]));
            } else {
                assert(lower_chars(a)[i] == lower_char(a[i]));
                assert(lower_chars(b)[i] == lower_char(b[i]));
            }
        }
    }
}

/// Space ids are case-insensitive in the DAO address: two ASCII
/// addresses equal up to letter case derive the same space id.
pub proof fn law_space_id_case_insensitive(network: Seq<char>, a: Seq<char>, b: Seq<char>)
    requires
        vstd::utf8::is_ascii_chars(a),
        vstd::utf8::is_ascii_chars(b),
        lower_chars(a) == lower_chars(b),
    ensures
        spec_space_id(network, a) == spec_space_id(network, b),
{
    law_checksum_case_insensitive(a, b);
    assert(space_seed(network, a) == space_seed(network, b));
}

// ---------------------------------------------------------------------
// Swapping DAO and plugin changes the derived proposal seed.
// ---------------------------------------------------------------------

/// For two checksum forms of equal length, swapping the DAO and plugin
/// positions changes the seed the proposal id is hashed from, whenever
/// the two forms differ. (The ids themselves then differ unless the
/// hash collides.)
pub proof fn law_proposal_seed_swap(dao: Seq<char>, proposal_id: Seq<char>, plugin: Seq<char>)
    requires
        checksum_chars(dao).len() == checksum_chars(plugin).len(),
        checksum_chars(dao) != checksum_chars(plugin),
    ensures
        proposal_seed(dao, proposal_id, plugin) != proposal_seed(plugin, proposal_id, dao),
{
    let a = checksum_chars(dao);
    let b = checksum_chars(plugin);
    let s1 = proposal_seed(dao, proposal_id, plugin);
    let s2 = proposal_seed(plugin, proposal_id, dao);
    assert(exists|i: int| 0 <= i < a.len() && #[trigger] a[i] != b[i]) by {
        if forall|i: int| 0 <= i < a.len() ==> #[trigger] a[i] == b[i] {
            assert(a =~= b);
        }
    }
    let i = choose|i: int| 0 <= i < a.len() && #[trigger] a[i] != b[i];
    assert(s1[i] == a[i]);
    assert(s2[i] == b[i]);
}

// ---------------------------------------------------------------------
// A sixteen-byte edit id round-trips; other lengths correlate to none.
// ---------------------------------------------------------------------

/// An edit id of exactly sixteen bytes round-trips through the id type:
/// the id reads back as the same bytes. Together with
/// [`crate::uid::transform_id_bytes`], whose contract accepts exactly
/// the sixteen-byte inputs, any other length yields no id.
pub proof fn law_edit_id_roundtrip(bytes: Seq<u8>)
    requires
        bytes.len() == 16,
    ensures
        uid_bytes(uid_of_bytes(bytes)) == bytes,
{
    crate::uid::lemma_uid_bytes_roundtrip(bytes);
}

} // verus!

verus! {

/// The checksum form is a fixed point: encoding a checksummed address
/// again gives it back. Lowercasing undoes exactly the case the
/// encoding applied, so the Keccak digest — and with it every case
/// decision — comes out the same.
pub proof fn law_checksum_idempotent(s: Seq<char>)
    ensures
        checksum_chars(checksum_chars(s)) == checksum_chars(s),
{
    if !vstd::utf8::is_ascii_chars(s) {
        assert(checksum_chars(s) == s);
    } else {
        let body = if has_hex_prefix(s) { s.skip(2) } else { s };
        let lower = lower_chars(body);
        let h = crate::ids::keccak_of(crate::ids::ascii_bytes(lower));
        let cased = cased_chars(lower, h);
        let c = checksum_chars(s);
        assert(c =~= seq!['0', 'x'] + cased);
        assert forall|i: int| 0 <= i < cased.len() implies #[trigger] cased[i] <= '\u{7f}' by {
            assert(body[i] <= '\u{7f}');
            assert(lower[i] == lower_char(body[i]));
            assert(cased[i] == cased_char(lower[i], i < 64 && crate::ids::nibble(h, i) >= 8));
        }
        assert(vstd::utf8::is_ascii_chars(c)) by {
            assert forall|i: int| 0 <= i < c.len() implies '\0' <= #[trigger] c[i]
                <= '\u{7f}' by {
                if i >= 2 {
                    assert(c[i] == cased[i - 2]);
                }
            }
        }
        assert(has_hex_prefix(c));
        let body2 = c.skip(2);
        assert(body2 =~= cased);
        let lower2 = lower_chars(body2);
        assert(lower2 =~= lower) by {
            assert forall|i: int| 0 <= i < lower2.len() implies #[trigger] lower2[i]
                == lower[i] by {
                assert(body[i] <= '\u{7f}');
                assert(lower[i] == lower_char(body[i]));
                assert(body2[i] == cased_char(lower[i], i < 64 && crate::ids::nibble(h, i) >= 8));
                assert(lower2[i] == lower_char(body2[i]));
            }
        }
        assert(checksum_chars(c) =~= seq!['0', 'x'] + cased_chars(
            lower,
            crate::ids::keccak_of(crate::ids::ascii_bytes(lower)),
        ));
    }
}

/// Both id derivations agree: deriving a space id from a checksummed
/// address gives the same id as deriving it from the raw address, so
/// the proposal rows land in the same space the space handler created.
pub proof fn law_space_id_checksum_agnostic(network: Seq<char>, dao: Seq<char>)
    ensures
        spec_space_id(network, checksum_chars(dao)) == spec_space_id(network, dao),
{
    law_checksum_idempotent(dao);
    assert(space_seed(network, checksum_chars(dao)) == space_seed(network, dao));
}

} // verus!

verus! {

/// Canonical ids survive a batch upsert of canonical rows.
proof fn lemma_upsert_all_canonical(s: Seq<ValueOp>, items: Seq<ValueOp>)
    requires
        canonical_value_ids(s),
        canonical_value_ids(items),
    ensures
        canonical_value_ids(upsert_all(s, items)),
    decreases items.len(),
{
    if items.len() > 0 {
        assert(canonical_value_ids(items.drop_last())) by {
            assert forall|i: int| 0 <= i < items.drop_last().len() implies
                (#[trigger] items.drop_last()[i]).id == spec_value_id(
                items.drop_last()[i].entity_id,
                items.drop_last()[i].property_id,
                items.drop_last()[i].space_id,
            ) by {
                assert(items.drop_last()[i] == items[i]);
            }
        }
        lemma_upsert_all_canonical(s, items.drop_last());
        crate::storage::lemma_upsert_canonical(
            upsert_all(s, items.drop_last()),
            items.last(),
        );
    }
}

/// Canonical ids survive a scoped removal batch.
proof fn lemma_remove_values_canonical(s: Seq<ValueOp>, items: Seq<ValueOp>, space: Uid)
    requires
        canonical_value_ids(s),
    ensures
        canonical_value_ids(remove_values(s, items, space)),
    decreases items.len(),
{
    if items.len() > 0 {
        lemma_remove_values_canonical(s, items.drop_last(), space);
        let rest = remove_values(s, items.drop_last(), space);
        if value_in_space(rest, items.last().id, space) {
            crate::storage::lemma_remove_key_canonical(rest, items.last().id);
        }
    }
}

/// A removal batch that names `id` leaves no row for it in `space`:
/// whatever stood there is gone, and nothing is ever added back.
proof fn lemma_remove_values_not_in_space(s: Seq<ValueOp>, items: Seq<ValueOp>, id: Uid, space: Uid)
    requires
        unique_keys(s),
        exists|j: int| 0 <= j < items.len() && (#[trigger] items[j]).id == id,
    ensures
        unique_keys(remove_values(s, items, space)),
        !value_in_space(remove_values(s, items, space), id, space),
    decreases items.len(),
{
    lemma_remove_values_wf(s, items, space);
    lemma_remove_values_wf(s, items.drop_last(), space);
    let rest = remove_values(s, items.drop_last(), space);
    let x = items.last();
    if exists|j: int| 0 <= j < items.drop_last().len() && (#[trigger] items.drop_last()[j]).id
        == id {
        lemma_remove_values_not_in_space(s, items.drop_last(), id, space);
        if value_in_space(rest, x.id, space) {
            lemma_lookup_remove(rest, x.id, id);
        }
    } else {
        let j = choose|j: int| 0 <= j < items.len() && (#[trigger] items[j]).id == id;
        assert(j == items.len() - 1) by {
            if j < items.len() - 1 {
                assert(items.drop_last()[j].id == id);
            }
        }
        assert(x.id == id);
        if value_in_space(rest, id, space) {
            lemma_lookup_remove(rest, id, id);
        }
    }
}

/// The SET-then-UNSET law at the edit handler's own contract: when an
/// applied edit unsets `(entity, property)`, the store it leaves holds
/// no value row for that triple in the edit's space — whatever the same
/// edit set on it first, and whatever stood there before.
pub proof fn law_edit_set_then_unset(
    pre_s: crate::storage::StorageModel,
    pre_c: Map<Uid, crate::properties::DataType>,
    pe: crate::edit::PreprocessedEdit,
    block: crate::BlockMetadata,
    post_s: crate::storage::StorageModel,
    post_c: Map<Uid, crate::properties::DataType>,
    entity: Uid,
    property: Uid,
    j: int,
)
    requires
        crate::handlers::edit_applied(pre_s, pre_c, pe, block, post_s, post_c),
        !pe.is_errored,
        pe.edit is Some,
        unique_keys(pre_s.values),
        canonical_value_ids(pre_s.values),
        0 <= j < crate::values::unset_sources((*pe.edit->Some_0).ops@).len(),
        crate::values::unset_sources((*pe.edit->Some_0).ops@)[j] == (UnsetSource {
            entity,
            property,
        }),
    ensures
        forall|i: int|
            0 <= i < post_s.values.len() ==> !((#[trigger] post_s.values[i]).entity_id == entity
                && post_s.values[i].property_id == property && post_s.values[i].space_id
                == pe.space_id),
{
    let ed = *pe.edit->Some_0;
    let space = pe.space_id;
    let vid = spec_value_id(entity, property, space);
    let w = choose|w: crate::handlers::EditWitness|
        #[trigger] crate::handlers::edit_witness_ok(
            ed,
            space,
            block,
            crate::handlers::cache_with(
                pre_c,
                crate::properties::squash_properties(
                    crate::properties::created_properties(ed.ops@),
                ),
            ),
            w,
        ) && post_s == crate::handlers::apply_edit_writes(
            pre_s,
            crate::properties::squash_properties(crate::properties::created_properties(ed.ops@)),
            w,
            crate::relations::rel_deletes(ed.ops@),
            space,
        );
    assert(unset_op_matches(
        crate::values::unset_sources(ed.ops@)[j],
        w.deleted[j],
        space,
    ));
    assert(w.deleted[j].id == vid);
    assert(canonical_value_ids(w.created)) by {
        assert forall|k: int| 0 <= k < w.created.len() implies (#[trigger] w.created[k]).id
            == spec_value_id(
            w.created[k].entity_id,
            w.created[k].property_id,
            w.created[k].space_id,
        ) by {
            assert(set_op_matches(
                crate::values::set_sources(ed.ops@)[k],
                crate::values::cache_dt(
                    crate::handlers::cache_with(
                        pre_c,
                        crate::properties::squash_properties(
                            crate::properties::created_properties(ed.ops@),
                        ),
                    ),
                    crate::values::set_sources(ed.ops@)[k].property,
                ),
                w.created[k],
                space,
            ));
        }
    }
    let kept = filter_populated(w.created);
    crate::values::lemma_filter_populated_canonical(w.created);
    let inserted = upsert_all(pre_s.values, kept);
    lemma_upsert_all_canonical(pre_s.values, kept);
    lemma_upsert_all_wf(pre_s.values, kept);
    let swept = remove_values(inserted, w.deleted, space);
    lemma_remove_values_canonical(inserted, w.deleted, space);
    lemma_remove_values_not_in_space(inserted, w.deleted, vid, space);
    assert(post_s.values == swept);
    assert forall|i: int| 0 <= i < swept.len() implies !((#[trigger] swept[i]).entity_id == entity
        && swept[i].property_id == property && swept[i].space_id == space) by {
        if swept[i].entity_id == entity && swept[i].property_id == property && swept[i].space_id
            == space {
            assert(swept[i].id == vid);
            lemma_key_index_unique_values(swept, vid, i);
            assert(value_in_space(swept, vid, space));
        }
    }
}

/// `lemma_key_index_unique` specialised to value rows, so the lookup at
/// a row's own key finds that row.
proof fn lemma_key_index_unique_values(s: Seq<ValueOp>, id: Uid, i: int)
    requires
        unique_keys(s),
        0 <= i < s.len(),
        s[i].id == id,
    ensures
        lookup_key(s, id) == Some(s[i]),
{
    crate::storage::lemma_key_index_unique(s, id, i);
}

} // verus!

verus! {

/// A membership pair survives any removal that names other pairs.
proof fn lemma_pair_survives_remove(
    s: Seq<MembershipRow>,
    space2: Uid,
    addr2: Seq<char>,
    space: Uid,
    addr: Seq<char>,
)
    requires
        has_pair(s, space, addr),
        !(space == space2 && addr == addr2),
    ensures
        has_pair(crate::storage::remove_pair(s, space2, addr2), space, addr),
    decreases s.len(),
{
    let t = crate::storage::remove_pair(s, space2, addr2);
    let k = choose|k: int|
        0 <= k < s.len() && (#[trigger] s[k]).space_id == space && s[k].address@ == addr;
    if k == s.len() - 1 {
        assert(t[t.len() - 1].space_id == space && t[t.len() - 1].address@ == addr);
    } else {
        let front = s.drop_last();
        assert(front[k].space_id == space && front[k].address@ == addr);
        lemma_pair_survives_remove(front, space2, addr2, space, addr);
        let ft = crate::storage::remove_pair(front, space2, addr2);
        let k2 = choose|k2: int|
            0 <= k2 < ft.len() && (#[trigger] ft[k2]).space_id == space && ft[k2].address@
                == addr;
        assert(t[k2].space_id == space && t[k2].address@ == addr);
    }
}

/// An editor of a space created in the same block ends up a stored
/// member of that space: the promoted row is folded in by the
/// membership handler, and no removal in the block names it.
pub proof fn law_initial_member_stored(
    pre: Seq<MembershipRow>,
    rows: Seq<MembershipRow>,
    removals: Seq<MembershipRow>,
    i: int,
)
    requires
        0 <= i < rows.len(),
        forall|j: int|
            0 <= j < removals.len() ==> !((#[trigger] removals[j]).space_id == rows[i].space_id
                && removals[j].address@ == rows[i].address@),
    ensures
        has_pair(
            crate::handlers::remove_pairs_all(add_pairs_all(pre, rows), removals),
            rows[i].space_id,
            rows[i].address@,
        ),
    decreases removals.len(),
{
    law_member_added(pre, rows, i);
    lemma_member_survives_removals(add_pairs_all(pre, rows), removals, rows[i].space_id, rows[i].address@);
}

/// A stored pair survives a removal batch that never names it.
proof fn lemma_member_survives_removals(
    s: Seq<MembershipRow>,
    removals: Seq<MembershipRow>,
    space: Uid,
    addr: Seq<char>,
)
    requires
        has_pair(s, space, addr),
        forall|j: int|
            0 <= j < removals.len() ==> !((#[trigger] removals[j]).space_id == space
                && removals[j].address@ == addr),
    ensures
        has_pair(crate::handlers::remove_pairs_all(s, removals), space, addr),
    decreases removals.len(),
{
    if removals.len() > 0 {
        assert forall|j: int| 0 <= j < removals.drop_last().len() implies
            !((#[trigger] removals.drop_last()[j]).space_id == space
                && removals.drop_last()[j].address@ == addr) by {
            assert(removals.drop_last()[j] == removals[j]);
        }
        lemma_member_survives_removals(s, removals.drop_last(), space, addr);
        let x = removals.last();
        assert(!(space == x.space_id && addr == x.address@));
        lemma_pair_survives_remove(
            crate::handlers::remove_pairs_all(s, removals.drop_last()),
            x.space_id,
            x.address@,
            space,
            addr,
        );
    }
}

} // verus!

verus! {

/// Some batch row carrying `id` is public.
pub open spec fn batch_has_public(items: Seq<SpaceRow>, id: Uid) -> bool {
    exists|k: int|
        0 <= k < items.len() && (#[trigger] items[k]).id == id && items[k].space_type
            == SpaceType::Public
}

/// What a space batch leaves at an id, by variant: once the stored row
/// is public — from before, or from any row of the batch — it stays
/// public; and a stored row is never demoted.
proof fn lemma_insert_spaces_variant(s: Seq<SpaceRow>, items: Seq<SpaceRow>, id: Uid)
    requires
        unique_keys(s),
    ensures
        unique_keys(insert_spaces_seq(s, items)),
        match lookup_key(insert_spaces_seq(s, items), id) {
            Some(row) => row.space_type == SpaceType::Public ==> (match lookup_key(s, id) {
                Some(pre) => pre.space_type == SpaceType::Public,
                None => false,
            } || batch_has_public(items, id)),
            None => true,
        },
        (match lookup_key(s, id) {
            Some(pre) => pre.space_type == SpaceType::Public,
            None => false,
        } || batch_has_public(items, id)) ==> (match lookup_key(
            insert_spaces_seq(s, items),
            id,
        ) {
            Some(row) => row.space_type == SpaceType::Public,
            None => false,
        }),
    decreases items.len(),
{
    if items.len() == 0 {
    } else {
        lemma_insert_spaces_variant(s, items.drop_last(), id);
        let rest = insert_spaces_seq(s, items.drop_last());
        let x = items.last();
        assert forall|k: int| 0 <= k < items.drop_last().len() implies items.drop_last()[k]
            == items[k] by {}
        if batch_has_public(items.drop_last(), id) {
            let k = choose|k: int|
                0 <= k < items.drop_last().len() && (#[trigger] items.drop_last()[k]).id == id
                    && items.drop_last()[k].space_type == SpaceType::Public;
            assert(items[k].id == id && items[k].space_type == SpaceType::Public);
        }
        if has_key(rest, x.key()) {
            if lookup_key(rest, x.key())->Some_0.space_type == SpaceType::Personal
                && x.space_type == SpaceType::Public {
                lemma_lookup_upsert(rest, x, id);
                if x.id == id {
                    assert(items[items.len() - 1].id == id && items[items.len() - 1].space_type
                        == SpaceType::Public);
                }
            } else {
                if batch_has_public(items, id) && !batch_has_public(items.drop_last(), id) {
                    let k = choose|k: int|
                        0 <= k < items.len() && (#[trigger] items[k]).id == id
                            && items[k].space_type == SpaceType::Public;
                    assert(k == items.len() - 1) by {
                        if k < items.len() - 1 {
                            assert(items.drop_last()[k].id == id && items.drop_last()[k].space_type
                                == SpaceType::Public);
                        }
                    }
                }
            }
        } else {
            if x.id == id {
                if batch_has_public(items, id) && !batch_has_public(items.drop_last(), id) {
                    let k = choose|k: int|
                        0 <= k < items.len() && (#[trigger] items[k]).id == id
                            && items[k].space_type == SpaceType::Public;
                    assert(k == items.len() - 1) by {
                        if k < items.len() - 1 {
                            assert(items.drop_last()[k].id == id);
                        }
                    }
                }
                lemma_lookup_upsert(rest, x, id);
                assert(upsert_key(rest, x) == rest.push(x));
            } else {
                lemma_lookup_push_other(rest, x, id);
                if batch_has_public(items, id) && !batch_has_public(items.drop_last(), id) {
                    let k = choose|k: int|
                        0 <= k < items.len() && (#[trigger] items[k]).id == id
                            && items[k].space_type == SpaceType::Public;
                    assert(k == items.len() - 1) by {
                        if k < items.len() - 1 {
                            assert(items.drop_last()[k].id == id);
                        }
                    }
                }
            }
        }
    }
}

/// A public space row for a DAO wins within its batch: if any row of
/// the batch for an id is public, the stored row for that id is public
/// afterwards, whatever the order of the batch.
pub proof fn law_public_wins_in_batch(s: Seq<SpaceRow>, items: Seq<SpaceRow>, id: Uid)
    requires
        unique_keys(s),
        batch_has_public(items, id),
    ensures
        match lookup_key(insert_spaces_seq(s, items), id) {
            Some(row) => row.space_type == SpaceType::Public,
            None => false,
        },
{
    lemma_insert_spaces_variant(s, items, id);
}

} // verus!

verus! {

/// Pair removal distributes over concatenation.
proof fn lemma_remove_pair_concat(a: Seq<MembershipRow>, b: Seq<MembershipRow>, sp: Uid, ad: Seq<char>)
    ensures
        crate::storage::remove_pair(a + b, sp, ad) == crate::storage::remove_pair(a, sp, ad)
            + crate::storage::remove_pair(b, sp, ad),
    decreases b.len(),
{
    if b.len() == 0 {
        assert(a + b =~= a);
        assert(crate::storage::remove_pair(a, sp, ad) + crate::storage::remove_pair(b, sp, ad)
            =~= crate::storage::remove_pair(a, sp, ad));
    } else {
        assert((a + b).drop_last() =~= a + b.drop_last());
        assert((a + b).last() == b.last());
        lemma_remove_pair_concat(a, b.drop_last(), sp, ad);
        if b.last().space_id == sp && b.last().address@ == ad {
            assert(crate::storage::remove_pair(a + b, sp, ad) =~= crate::storage::remove_pair(
                a,
                sp,
                ad,
            ) + crate::storage::remove_pair(b, sp, ad));
        } else {
            assert(crate::storage::remove_pair(b, sp, ad) == crate::storage::remove_pair(
                b.drop_last(),
                sp,
                ad,
            ).push(b.last()));
            assert(crate::storage::remove_pair(a + b, sp, ad) =~= crate::storage::remove_pair(
                a,
                sp,
                ad,
            ) + crate::storage::remove_pair(b, sp, ad));
        }
    }
}

/// Batch pair removal distributes over concatenation.
proof fn lemma_remove_pairs_all_concat(
    a: Seq<MembershipRow>,
    b: Seq<MembershipRow>,
    removals: Seq<MembershipRow>,
)
    ensures
        crate::handlers::remove_pairs_all(a + b, removals) == crate::handlers::remove_pairs_all(
            a,
            removals,
        ) + crate::handlers::remove_pairs_all(b, removals),
    decreases removals.len(),
{
    if removals.len() == 0 {
    } else {
        lemma_remove_pairs_all_concat(a, b, removals.drop_last());
        let x = removals.last();
        lemma_remove_pair_concat(
            crate::handlers::remove_pairs_all(a, removals.drop_last()),
            crate::handlers::remove_pairs_all(b, removals.drop_last()),
            x.space_id,
            x.address@,
        );
    }
}

/// `s` holds the row `r` somewhere.
pub open spec fn contains_row(s: Seq<MembershipRow>, r: MembershipRow) -> bool {
    exists|w: int| 0 <= w < s.len() && #[trigger] s[w] == r
}

/// Every row of `t` is a row of `s`.
pub open spec fn rows_from(t: Seq<MembershipRow>, s: Seq<MembershipRow>) -> bool {
    forall|i: int| 0 <= i < t.len() ==> contains_row(s, #[trigger] t[i])
}

proof fn lemma_rows_from_trans(a: Seq<MembershipRow>, b: Seq<MembershipRow>, c: Seq<MembershipRow>)
    requires
        rows_from(a, b),
        rows_from(b, c),
    ensures
        rows_from(a, c),
{
    assert forall|i: int| 0 <= i < a.len() implies contains_row(c, #[trigger] a[i]) by {
        assert(contains_row(b, a[i]));
        let j = choose|j: int| 0 <= j < b.len() && #[trigger] b[j] == a[i];
        assert(contains_row(c, b[j]));
        let w = choose|w: int| 0 <= w < c.len() && #[trigger] c[w] == b[j];
        assert(c[w] == a[i]);
    }
}

/// Every row a batch removal keeps comes from its input.
proof fn lemma_remove_pairs_all_subset(s: Seq<MembershipRow>, removals: Seq<MembershipRow>)
    ensures
        rows_from(crate::handlers::remove_pairs_all(s, removals), s),
    decreases removals.len(),
{
    let t = crate::handlers::remove_pairs_all(s, removals);
    if removals.len() == 0 {
        assert forall|i: int| 0 <= i < t.len() implies contains_row(s, #[trigger] t[i]) by {
            assert(s[i] == t[i]);
        }
    } else {
        lemma_remove_pairs_all_subset(s, removals.drop_last());
        let mid = crate::handlers::remove_pairs_all(s, removals.drop_last());
        let x = removals.last();
        lemma_remove_pair_subset_pub(mid, x.space_id, x.address@);
        lemma_rows_from_trans(t, mid, s);
    }
}

/// Every row a single pair removal keeps comes from its input.
proof fn lemma_remove_pair_subset_pub(s: Seq<MembershipRow>, space: Uid, addr: Seq<char>)
    ensures
        rows_from(crate::storage::remove_pair(s, space, addr), s),
    decreases s.len(),
{
    if s.len() > 0 {
        let front = s.drop_last();
        lemma_remove_pair_subset_pub(front, space, addr);
        let ft = crate::storage::remove_pair(front, space, addr);
        let t = crate::storage::remove_pair(s, space, addr);
        assert forall|i: int| 0 <= i < t.len() implies contains_row(s, #[trigger] t[i]) by {
            if i < ft.len() {
                assert(t[i] == ft[i]);
                assert(contains_row(front, ft[i]));
                let j = choose|j: int| 0 <= j < front.len() && #[trigger] front[j] == ft[i];
                assert(s[j] == t[i]);
            } else {
                assert(t[i] == s[s.len() - 1]);
            }
        }
    }
}

/// No row a batch removal keeps carries a pair the batch names.
proof fn lemma_remove_pairs_all_clears(s: Seq<MembershipRow>, removals: Seq<MembershipRow>, j: int)
    requires
        0 <= j < removals.len(),
    ensures
        forall|i: int|
            0 <= i < crate::handlers::remove_pairs_all(s, removals).len() ==> !((
            #[trigger] crate::handlers::remove_pairs_all(s, removals)[i]).space_id
                == removals[j].space_id && crate::handlers::remove_pairs_all(s, removals)[i].address@
                == removals[j].address@),
    decreases removals.len(),
{
    let t = crate::handlers::remove_pairs_all(s, removals);
    let mid = crate::handlers::remove_pairs_all(s, removals.drop_last());
    let x = removals.last();
    if j == removals.len() - 1 {
        assert forall|i: int| 0 <= i < t.len() implies !((#[trigger] t[i]).space_id
            == removals[j].space_id && t[i].address@ == removals[j].address@) by {
            lemma_remove_pair_keeps_no_match(mid, x.space_id, x.address@, i);
        }
    } else {
        assert(removals.drop_last()[j] == removals[j]);
        lemma_remove_pairs_all_clears(s, removals.drop_last(), j);
        lemma_remove_pair_subset_pub(mid, x.space_id, x.address@);
        assert forall|i: int| 0 <= i < t.len() implies !((#[trigger] t[i]).space_id
            == removals[j].space_id && t[i].address@ == removals[j].address@) by {
            assert(contains_row(mid, t[i]));
            let w = choose|w: int| 0 <= w < mid.len() && #[trigger] mid[w] == t[i];
        }
    }
}

/// A single pair removal keeps no row carrying the removed pair.
proof fn lemma_remove_pair_keeps_no_match(s: Seq<MembershipRow>, space: Uid, addr: Seq<char>, i: int)
    requires
        0 <= i < crate::storage::remove_pair(s, space, addr).len(),
    ensures
        !((crate::storage::remove_pair(s, space, addr)[i]).space_id == space
            && crate::storage::remove_pair(s, space, addr)[i].address@ == addr),
    decreases s.len(),
{
    if s.len() > 0 {
        let ft = crate::storage::remove_pair(s.drop_last(), space, addr);
        if i < ft.len() {
            lemma_remove_pair_keeps_no_match(s.drop_last(), space, addr, i);
        }
    }
}

/// Folding an addition batch appends exactly the rows whose pairs were
/// missing: the result is the input followed by some subsequence of the
/// batch.
proof fn lemma_add_pairs_all_appends(pre: Seq<MembershipRow>, rows: Seq<MembershipRow>) -> (tail:
    Seq<MembershipRow>)
    ensures
        add_pairs_all(pre, rows) == pre + tail,
        forall|i: int|
            0 <= i < tail.len() ==> exists|w: int| 0 <= w < rows.len() && rows[w]
                == #[trigger] tail[i],
        forall|i: int|
            0 <= i < tail.len() ==> !has_pair(pre, (#[trigger] tail[i]).space_id, tail[i].address@),
    decreases rows.len(),
{
    if rows.len() == 0 {
        let tail = Seq::<MembershipRow>::empty();
        assert(add_pairs_all(pre, rows) =~= pre + tail);
        tail
    } else {
        let t0 = lemma_add_pairs_all_appends(pre, rows.drop_last());
        let mid = add_pairs_all(pre, rows.drop_last());
        let x = rows.last();
        if has_pair(mid, x.space_id, x.address@) {
            assert forall|i: int| 0 <= i < t0.len() implies exists|w: int|
                0 <= w < rows.len() && rows[w] == #[trigger] t0[i] by {
                let w = choose|w: int| 0 <= w < rows.drop_last().len() && rows.drop_last()[w]
                    == t0[i];
                assert(rows[w] == t0[i]);
            }
            t0
        } else {
            let tail = t0.push(x);
            assert(add_pairs_all(pre, rows) =~= pre + tail);
            assert forall|i: int| 0 <= i < tail.len() implies exists|w: int|
                0 <= w < rows.len() && rows[w] == #[trigger] tail[i] by {
                if i < t0.len() {
                    let w = choose|w: int| 0 <= w < rows.drop_last().len() && rows.drop_last()[w]
                        == t0[i];
                    assert(rows[w] == tail[i]);
                } else {
                    assert(rows[rows.len() - 1] == tail[i]);
                }
            }
            assert forall|i: int| 0 <= i < tail.len() implies !has_pair(
                pre,
                (#[trigger] tail[i]).space_id,
                tail[i].address@,
            ) by {
                if i == tail.len() - 1 {
                    if has_pair(pre, x.space_id, x.address@) {
                        let k = choose|k: int|
                            0 <= k < pre.len() && (#[trigger] pre[k]).space_id == x.space_id
                                && pre[k].address@ == x.address@;
                        assert(mid[k].space_id == x.space_id && mid[k].address@ == x.address@);
                    }
                } else {
                    assert(tail[i] == t0[i]);
                }
            }
            tail
        }
    }
}

/// A batch removal leaves a state it has already cleaned unchanged.
proof fn lemma_remove_pairs_all_stable(s: Seq<MembershipRow>, removals: Seq<MembershipRow>)
    requires
        forall|i: int, j: int|
            0 <= i < s.len() && 0 <= j < removals.len() ==> !((#[trigger] s[i]).space_id
                == (#[trigger] removals[j]).space_id && s[i].address@ == removals[j].address@),
    ensures
        crate::handlers::remove_pairs_all(s, removals) == s,
    decreases removals.len(),
{
    if removals.len() > 0 {
        assert forall|i: int, j: int|
            0 <= i < s.len() && 0 <= j < removals.drop_last().len() implies
            !((#[trigger] s[i]).space_id == (#[trigger] removals.drop_last()[j]).space_id
                && s[i].address@ == removals.drop_last()[j].address@) by {
            assert(removals.drop_last()[j] == removals[j]);
        }
        lemma_remove_pairs_all_stable(s, removals.drop_last());
        let x = removals.last();
        assert(crate::storage::remove_pair(s, x.space_id, x.address@) == s) by {
            lemma_remove_pair_absent(s, x.space_id, x.address@);
            if has_pair(s, x.space_id, x.address@) {
                let k = choose|k: int|
                    0 <= k < s.len() && (#[trigger] s[k]).space_id == x.space_id && s[k].address@
                        == x.address@;
                assert(removals[removals.len() - 1] == x);
            }
        }
    }
}

/// Removing an absent pair changes nothing.
proof fn lemma_remove_pair_absent(s: Seq<MembershipRow>, space: Uid, addr: Seq<char>)
    requires
        !has_pair(s, space, addr),
    ensures
        crate::storage::remove_pair(s, space, addr) == s,
    decreases s.len(),
{
    if s.len() > 0 {
        assert(!has_pair(s.drop_last(), space, addr)) by {
            if has_pair(s.drop_last(), space, addr) {
                let k = choose|k: int|
                    0 <= k < s.drop_last().len() && (#[trigger] s.drop_last()[k]).space_id
                        == space && s.drop_last()[k].address@ == addr;
                assert(s[k].space_id == space && s[k].address@ == addr);
            }
        }
        lemma_remove_pair_absent(s.drop_last(), space, addr);
        assert(s[s.len() - 1].space_id != space || s[s.len() - 1].address@ != addr) by {
            if s[s.len() - 1].space_id == space && s[s.len() - 1].address@ == addr {
                assert(has_pair(s, space, addr));
            }
        }
        assert(crate::storage::remove_pair(s, space, addr) =~= s);
    }
}

/// Replaying a whole membership slice — its additions folded in, then
/// its removals — leaves the store exactly as the first run did: the
/// rows the replayed additions re-append are exactly rows the removals
/// then delete again.
pub proof fn law_replay_membership_slice(
    pre: Seq<MembershipRow>,
    additions: Seq<MembershipRow>,
    removals: Seq<MembershipRow>,
)
    ensures
        ({
            let once = crate::handlers::remove_pairs_all(
                add_pairs_all(pre, additions),
                removals,
            );
            crate::handlers::remove_pairs_all(add_pairs_all(once, additions), removals) == once
        }),
{
    let once = crate::handlers::remove_pairs_all(add_pairs_all(pre, additions), removals);
    let tail = lemma_add_pairs_all_appends(once, additions);
    assert(add_pairs_all(once, additions) == once + tail);
    lemma_remove_pairs_all_concat(once, tail, removals);
    // `once` is already clean of every removed pair.
    assert forall|i: int, j: int|
        0 <= i < once.len() && 0 <= j < removals.len() implies !((#[trigger] once[i]).space_id
            == (#[trigger] removals[j]).space_id && once[i].address@ == removals[j].address@) by {
        lemma_remove_pairs_all_clears(add_pairs_all(pre, additions), removals, j);
    }
    lemma_remove_pairs_all_stable(once, removals);
    // Every re-appended row carries a pair the removals name, so the
    // replayed removals delete the whole tail.
    let swept = crate::handlers::remove_pairs_all(tail, removals);
    assert(swept =~= Seq::<MembershipRow>::empty()) by {
        lemma_remove_pairs_all_subset(tail, removals);
        if swept.len() > 0 {
            assert(contains_row(tail, swept[0]));
            let w = choose|w: int| 0 <= w < tail.len() && #[trigger] tail[w] == swept[0];
            let a = choose|a: int| 0 <= a < additions.len() && additions[a] == tail[w];
            // The row's pair was added, so it stood after the first
            // additions; it is gone from `once` (the tail only holds
            // pairs `once` lacks), so some removal names it; but a
            // removal batch keeps no row it names.
            law_member_added(pre, additions, a);
            let t = tail[w];
            assert(exists|j: int|
                0 <= j < removals.len() && (#[trigger] removals[j]).space_id == t.space_id
                    && removals[j].address@ == t.address@) by {
                if forall|j: int|
                    0 <= j < removals.len() ==> !((#[trigger] removals[j]).space_id == t.space_id
                        && removals[j].address@ == t.address@) {
                    lemma_member_survives_removals(
                        add_pairs_all(pre, additions),
                        removals,
                        t.space_id,
                        t.address@,
                    );
                }
            }
            let j = choose|j: int|
                0 <= j < removals.len() && (#[trigger] removals[j]).space_id == t.space_id
                    && removals[j].address@ == t.address@;
            lemma_remove_pairs_all_clears(tail, removals, j);
        }
    }
    assert(crate::handlers::remove_pairs_all(add_pairs_all(once, additions), removals)
        =~= once);
}

} // verus!

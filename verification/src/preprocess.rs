//! Preprocessing: from a raw block to the typed bundle the handlers
//! consume.
//!
//! The block's content URIs are collected (blocklisted DAOs dropped)
//! and deduplicated, so each URI costs one cache fetch; created spaces
//! are matched to their plugins, governance first; editors added in the
//! same block that created their space are promoted to initial members;
//! and each publish-edit proposal is correlated with the id of its
//! cached edit.

use vstd::prelude::*;
use crate::chain::{
    EditorAdded, EditorRemoved, GeoGovernancePluginCreated, GeoOutput,
    GeoPersonalSpaceAdminPluginCreated, GeoSpaceCreated, MemberAdded, MemberRemoved,
    ProposalExecuted, SubspaceAdded, SubspaceRemoved,
};
use crate::edit::PreprocessedEdit;
use crate::ids::derive_proposal_id;
use crate::uid::{uid_of_bytes, Uid};
use crate::{
    AddedMember, AddedSubspace, BlockMetadata, CreatedSpace, ExecutedProposal, KgData,
    PersonalSpace, ProposalCreated, PublicSpace, RemovedMember, RemovedSubspace,
};

verus! {

/// The cache rows fetched for one block, addressed by content URI.
pub struct CacheMap {
    entries: Vec<(String, PreprocessedEdit)>,
}

/// Some entry of `s` carries `uri`.
pub open spec fn has_uri(s: Seq<(String, PreprocessedEdit)>, uri: Seq<char>) -> bool {
    exists|i: int| 0 <= i < s.len() && (#[trigger] s[i]).0@ == uri
}

/// The entries of `s` carry pairwise distinct URIs.
pub open spec fn unique_uris(s: Seq<(String, PreprocessedEdit)>) -> bool {
    forall|i: int, j: int|
        0 <= i < j < s.len() ==> (#[trigger] s[i]).0@ != (#[trigger] s[j]).0@
}

/// The index of the entry of `s` carrying `uri`.
pub open spec fn uri_index(s: Seq<(String, PreprocessedEdit)>, uri: Seq<char>) -> int {
    choose|i: int| 0 <= i < s.len() && (#[trigger] s[i]).0@ == uri
}

/// The map view of a URI-keyed entry sequence.
pub open spec fn uri_view(s: Seq<(String, PreprocessedEdit)>) -> Map<Seq<char>, PreprocessedEdit> {
    Map::new(|uri: Seq<char>| has_uri(s, uri), |uri: Seq<char>| s[uri_index(s, uri)].1)
}

impl View for CacheMap {
    type V = Map<Seq<char>, PreprocessedEdit>;

    closed spec fn view(&self) -> Map<Seq<char>, PreprocessedEdit> {
        uri_view(self.entries@)
    }
}

proof fn lemma_uri_index_unique(s: Seq<(String, PreprocessedEdit)>, uri: Seq<char>, j: int)
    requires
        unique_uris(s),
        0 <= j < s.len(),
        s[j].0@ == uri,
    ensures
        has_uri(s, uri),
        uri_index(s, uri) == j,
{
    assert(has_uri(s, uri));
    let i = uri_index(s, uri);
    if i < j {
        assert(s[i].0@ != s[j].0@);
    } else if j < i {
        assert(s[j].0@ != s[i].0@);
    }
}

impl CacheMap {
    /// The map's internal invariant: one entry per URI. Established by
    /// [`CacheMap::new`] and preserved by every insert.
    pub closed spec fn wf(&self) -> bool {
        unique_uris(self.entries@)
    }

    /// An empty map.
    pub fn new() -> (r: CacheMap)
        ensures
            r.wf(),
            r@ == Map::<Seq<char>, PreprocessedEdit>::empty(),
    {
        let r = CacheMap { entries: Vec::new() };
        proof {
            assert(r@ =~= Map::<Seq<char>, PreprocessedEdit>::empty());
        }
        r
    }

    /// Record a fetched cache row under its URI; a row already present
    /// for that URI stays.
    pub fn insert(&mut self, uri: String, row: PreprocessedEdit)
        requires
            old(self).wf(),
        ensures
            final(self).wf(),
            final(self)@ == if old(self)@.contains_key(uri@) {
                old(self)@
            } else {
                old(self)@.insert(uri@, row)
            },
    {
        let n = self.entries.len();
        let mut j: usize = 0;
        while j < n
            invariant
                j <= n,
                self.entries@ == old(self).entries@,
                n == self.entries@.len(),
                unique_uris(self.entries@),
                forall|k: int| 0 <= k < j ==> (#[trigger] self.entries@[k]).0@ != uri@,
            decreases n - j,
        {
            if self.entries[j].0 == uri {
                proof {
                    lemma_uri_index_unique(self.entries@, uri@, j as int);
                }
                return;
            }
            j = j + 1;
        }
        let ghost before = self.entries@;
        self.entries.push((uri, row));
        proof {
            assert(!has_uri(before, uri@)) by {
                if has_uri(before, uri@) {
                    let k = uri_index(before, uri@);
                }
            }
            assert(unique_uris(self.entries@)) by {
                let t = self.entries@;
                assert forall|a: int, b: int| 0 <= a < b < t.len() implies (#[trigger] t[a]).0@
                    != (#[trigger] t[b]).0@ by {
                    if b == t.len() - 1 {
                        assert(t[a] == before[a]);
                        if before[a].0@ == uri@ {
                            assert(has_uri(before, uri@));
                        }
                    } else {
                        assert(t[a] == before[a] && t[b] == before[b]);
                    }
                }
            }
            assert(self@ =~= old(self)@.insert(uri@, row)) by {
                let t = self.entries@;
                assert forall|u: Seq<char>| has_uri(t, u) == (has_uri(before, u) || u == uri@) by {
                    if has_uri(t, u) {
                        let k = choose|k: int| 0 <= k < t.len() && (#[trigger] t[k]).0@ == u;
                        if k < t.len() - 1 {
                            assert(before[k].0@ == u);
                        }
                    }
                    if has_uri(before, u) {
                        let k = choose|k: int| 0 <= k < before.len() && (#[trigger] before[k]).0@
                            == u;
                        assert(t[k].0@ == u);
                    }
                    if u == uri@ {
                        assert(t[t.len() - 1].0@ == u);
                    }
                }
                assert forall|u: Seq<char>| #[trigger] has_uri(t, u) implies uri_view(t)[u]
                    == old(self)@.insert(uri@, row)[u] by {
                    let k = choose|k: int| 0 <= k < t.len() && (#[trigger] t[k]).0@ == u;
                    lemma_uri_index_unique(t, u, k);
                    if u == uri@ {
                        lemma_uri_index_unique(t, u, t.len() - 1);
                    } else {
                        assert(k < t.len() - 1);
                        assert(before[k].0@ == u);
                        lemma_uri_index_unique(before, u, k);
                    }
                }
            }
        }
    }

    /// The cache row fetched for a URI, if any.
    pub fn get(&self, uri: &String) -> (r: Option<&PreprocessedEdit>)
        requires
            self.wf(),
        ensures
            match r {
                Some(row) => self@.contains_key(uri@) && self@[uri@] == *row,
                None => !self@.contains_key(uri@),
            },
    {
        let n = self.entries.len();
        let mut j: usize = 0;
        while j < n
            invariant
                j <= n,
                n == self.entries@.len(),
                unique_uris(self.entries@),
                forall|k: int| 0 <= k < j ==> (#[trigger] self.entries@[k]).0@ != uri@,
            decreases n - j,
        {
            if self.entries[j].0 == *uri {
                proof {
                    lemma_uri_index_unique(self.entries@, uri@, j as int);
                }
                return Some(&self.entries[j].1);
            }
            j = j + 1;
        }
        proof {
            if has_uri(self.entries@, uri@) {
                let k = uri_index(self.entries@, uri@);
            }
        }
        None
    }
}

/// The first governance plugin for a DAO address.
pub open spec fn find_gov(s: Seq<GeoGovernancePluginCreated>, dao: Seq<char>) -> Option<
    GeoGovernancePluginCreated,
>
    decreases s.len(),
{
    if s.len() == 0 {
        None
    } else if s[0].dao_address@ == dao {
        Some(s[0])
    } else {
        find_gov(s.skip(1), dao)
    }
}

/// The first personal-admin plugin for a DAO address.
pub open spec fn find_personal(s: Seq<GeoPersonalSpaceAdminPluginCreated>, dao: Seq<char>) -> Option<
    GeoPersonalSpaceAdminPluginCreated,
>
    decreases s.len(),
{
    if s.len() == 0 {
        None
    } else if s[0].dao_address@ == dao {
        Some(s[0])
    } else {
        find_personal(s.skip(1), dao)
    }
}

proof fn lemma_find_gov_at(s: Seq<GeoGovernancePluginCreated>, dao: Seq<char>, j: int)
    requires
        0 <= j < s.len(),
        s[j].dao_address@ == dao,
        forall|k: int| 0 <= k < j ==> (#[trigger] s[k]).dao_address@ != dao,
    ensures
        find_gov(s, dao) == Some(s[j]),
    decreases j,
{
    if j == 0 {
    } else {
        assert(s[0].dao_address@ != dao);
        let t = s.skip(1);
        assert(t[j - 1] == s[j]);
        assert forall|k: int| 0 <= k < j - 1 implies (#[trigger] t[k]).dao_address@ != dao by {
            assert(t[k] == s[k + 1]);
        }
        lemma_find_gov_at(t, dao, j - 1);
    }
}

proof fn lemma_find_gov_none(s: Seq<GeoGovernancePluginCreated>, dao: Seq<char>)
    requires
        forall|k: int| 0 <= k < s.len() ==> (#[trigger] s[k]).dao_address@ != dao,
    ensures
        find_gov(s, dao) is None,
    decreases s.len(),
{
    if s.len() > 0 {
        let t = s.skip(1);
        assert forall|k: int| 0 <= k < t.len() implies (#[trigger] t[k]).dao_address@ != dao by {
            assert(t[k] == s[k + 1]);
        }
        lemma_find_gov_none(t, dao);
    }
}

proof fn lemma_find_personal_at(s: Seq<GeoPersonalSpaceAdminPluginCreated>, dao: Seq<char>, j: int)
    requires
        0 <= j < s.len(),
        s[j].dao_address@ == dao,
        forall|k: int| 0 <= k < j ==> (#[trigger] s[k]).dao_address@ != dao,
    ensures
        find_personal(s, dao) == Some(s[j]),
    decreases j,
{
    if j == 0 {
    } else {
        assert(s[0].dao_address@ != dao);
        let t = s.skip(1);
        assert(t[j - 1] == s[j]);
        assert forall|k: int| 0 <= k < j - 1 implies (#[trigger] t[k]).dao_address@ != dao by {
            assert(t[k] == s[k + 1]);
        }
        lemma_find_personal_at(t, dao, j - 1);
    }
}

proof fn lemma_find_personal_none(s: Seq<GeoPersonalSpaceAdminPluginCreated>, dao: Seq<char>)
    requires
        forall|k: int| 0 <= k < s.len() ==> (#[trigger] s[k]).dao_address@ != dao,
    ensures
        find_personal(s, dao) is None,
    decreases s.len(),
{
    if s.len() > 0 {
        let t = s.skip(1);
        assert forall|k: int| 0 <= k < t.len() implies (#[trigger] t[k]).dao_address@ != dao by {
            assert(t[k] == s[k + 1]);
        }
        lemma_find_personal_none(t, dao);
    }
}

/// The records one created space yields: a public space when a
/// governance plugin shares its DAO address, else a personal space when
/// a personal-admin plugin does, else nothing — the plugin may arrive
/// in a later block.
pub open spec fn spec_match_one(
    space: GeoSpaceCreated,
    gov: Seq<GeoGovernancePluginCreated>,
    pers: Seq<GeoPersonalSpaceAdminPluginCreated>,
) -> Seq<CreatedSpace> {
    match find_gov(gov, space.dao_address@) {
        Some(g) => seq![
            CreatedSpace::Public(
                PublicSpace {
                    dao_address: space.dao_address,
                    space_address: space.space_address,
                    membership_plugin: g.member_access_address,
                    governance_plugin: g.main_voting_address,
                },
            ),
        ],
        None => match find_personal(pers, space.dao_address@) {
            Some(p) => seq![
                CreatedSpace::Personal(
                    PersonalSpace {
                        dao_address: space.dao_address,
                        space_address: space.space_address,
                        personal_plugin: p.personal_admin_address,
                    },
                ),
            ],
            None => Seq::empty(),
        },
    }
}

/// Every created space matched against the plugins, in order.
pub open spec fn spec_match_spaces(
    spaces: Seq<GeoSpaceCreated>,
    gov: Seq<GeoGovernancePluginCreated>,
    pers: Seq<GeoPersonalSpaceAdminPluginCreated>,
) -> Seq<CreatedSpace>
    decreases spaces.len(),
{
    if spaces.len() == 0 {
        Seq::empty()
    } else {
        spec_match_spaces(spaces.drop_last(), gov, pers) + spec_match_one(spaces.last(), gov, pers)
    }
}

/// Match created spaces with their plugins by DAO address: a space with
/// a governance plugin becomes public — governance wins even when a
/// personal plugin is also present — one with only a personal-admin
/// plugin becomes personal, and one with neither is skipped.
pub fn match_spaces_with_plugins(
    spaces: &Vec<GeoSpaceCreated>,
    governance_plugins: &Vec<GeoGovernancePluginCreated>,
    personal_plugins: &Vec<GeoPersonalSpaceAdminPluginCreated>,
) -> (r: Vec<CreatedSpace>)
    ensures
        r@ == spec_match_spaces(spaces@, governance_plugins@, personal_plugins@),
{
    let mut out: Vec<CreatedSpace> = Vec::new();
    let mut i: usize = 0;
    while i < spaces.len()
        invariant
            i <= spaces@.len(),
            out@ == spec_match_spaces(
                spaces@.take(i as int),
                governance_plugins@,
                personal_plugins@,
            ),
        decreases spaces@.len() - i,
    {
        let ghost pre = spaces@.take(i as int);
        let space = &spaces[i];
        let gov = find_gov_index(governance_plugins, &space.dao_address);
        match gov {
            Some(j) => {
                let g = &governance_plugins[j];
                out.push(
                    CreatedSpace::Public(
                        PublicSpace {
                            dao_address: space.dao_address.clone(),
                            space_address: space.space_address.clone(),
                            membership_plugin: g.member_access_address.clone(),
                            governance_plugin: g.main_voting_address.clone(),
                        },
                    ),
                );
            },
            None => {
                match find_personal_index(personal_plugins, &space.dao_address) {
                    Some(j) => {
                        let p = &personal_plugins[j];
                        out.push(
                            CreatedSpace::Personal(
                                PersonalSpace {
                                    dao_address: space.dao_address.clone(),
                                    space_address: space.space_address.clone(),
                                    personal_plugin: p.personal_admin_address.clone(),
                                },
                            ),
                        );
                    },
                    None => {},
                }
            },
        }
        proof {
            assert(spaces@.take(i + 1 as int).drop_last() =~= pre);
            assert(spaces@.take(i + 1 as int).last() == spaces@[i as int]);
        }
        i = i + 1;
    }
    proof {
        assert(spaces@.take(spaces@.len() as int) =~= spaces@);
    }
    out
}

/// The index of the first governance plugin for a DAO address.
fn find_gov_index(plugins: &Vec<GeoGovernancePluginCreated>, dao: &String) -> (r: Option<usize>)
    ensures
        match r {
            Some(j) => j < plugins@.len() && find_gov(plugins@, dao@) == Some(
                plugins@[j as int],
            ),
            None => find_gov(plugins@, dao@) is None,
        },
{
    let mut j: usize = 0;
    while j < plugins.len()
        invariant
            j <= plugins@.len(),
            forall|k: int| 0 <= k < j ==> (#[trigger] plugins@[k]).dao_address@ != dao@,
        decreases plugins@.len() - j,
    {
        if plugins[j].dao_address == *dao {
            proof {
                lemma_find_gov_at(plugins@, dao@, j as int);
            }
            return Some(j);
        }
        j = j + 1;
    }
    proof {
        lemma_find_gov_none(plugins@, dao@);
    }
    None
}

/// The index of the first personal-admin plugin for a DAO address.
fn find_personal_index(plugins: &Vec<GeoPersonalSpaceAdminPluginCreated>, dao: &String) -> (r:
    Option<usize>)
    ensures
        match r {
            Some(j) => j < plugins@.len() && find_personal(plugins@, dao@) == Some(
                plugins@[j as int],
            ),
            None => find_personal(plugins@, dao@) is None,
        },
{
    let mut j: usize = 0;
    while j < plugins.len()
        invariant
            j <= plugins@.len(),
            forall|k: int| 0 <= k < j ==> (#[trigger] plugins@[k]).dao_address@ != dao@,
        decreases plugins@.len() - j,
    {
        if plugins[j].dao_address == *dao {
            proof {
                lemma_find_personal_at(plugins@, dao@, j as int);
            }
            return Some(j);
        }
        j = j + 1;
    }
    proof {
        lemma_find_personal_none(plugins@, dao@);
    }
    None
}

/// Map editor-added events to added members, field by field.
pub fn map_editors_added(editors: &Vec<EditorAdded>) -> (r: Vec<AddedMember>)
    ensures
        r@.len() == editors@.len(),
        forall|k: int|
            0 <= k < r@.len() ==> (#[trigger] r@[k]).dao_address@ == editors@[k].dao_address@
                && r@[k].editor_address@ == editors@[k].editor_address@,
{
    let mut out: Vec<AddedMember> = Vec::new();
    let mut i: usize = 0;
    while i < editors.len()
        invariant
            i <= editors@.len(),
            out@.len() == i,
            forall|k: int|
                0 <= k < i ==> (#[trigger] out@[k]).dao_address@ == editors@[k].dao_address@
                    && out@[k].editor_address@ == editors@[k].editor_address@,
        decreases editors@.len() - i,
    {
        out.push(
            AddedMember {
                dao_address: editors[i].dao_address.clone(),
                editor_address: editors[i].editor_address.clone(),
            },
        );
        i = i + 1;
    }
    out
}

/// Map member-added events to added members, field by field.
pub fn map_members_added(members: &Vec<MemberAdded>) -> (r: Vec<AddedMember>)
    ensures
        r@.len() == members@.len(),
        forall|k: int|
            0 <= k < r@.len() ==> (#[trigger] r@[k]).dao_address@ == members@[k].dao_address@
                && r@[k].editor_address@ == members@[k].member_address@,
{
    let mut out: Vec<AddedMember> = Vec::new();
    let mut i: usize = 0;
    while i < members.len()
        invariant
            i <= members@.len(),
            out@.len() == i,
            forall|k: int|
                0 <= k < i ==> (#[trigger] out@[k]).dao_address@ == members@[k].dao_address@
                    && out@[k].editor_address@ == members@[k].member_address@,
        decreases members@.len() - i,
    {
        out.push(
            AddedMember {
                dao_address: members[i].dao_address.clone(),
                editor_address: members[i].member_address.clone(),
            },
        );
        i = i + 1;
    }
    out
}

/// Map subspace-added events to subspace additions, field by field.
pub fn map_subspaces_added(subspaces: &Vec<SubspaceAdded>) -> (r: Vec<AddedSubspace>)
    ensures
        r@.len() == subspaces@.len(),
        forall|k: int|
            0 <= k < r@.len() ==> (#[trigger] r@[k]).dao_address@ == subspaces@[k].dao_address@
                && r@[k].subspace_address@ == subspaces@[k].subspace@,
{
    let mut out: Vec<AddedSubspace> = Vec::new();
    let mut i: usize = 0;
    while i < subspaces.len()
        invariant
            i <= subspaces@.len(),
            out@.len() == i,
            forall|k: int|
                0 <= k < i ==> (#[trigger] out@[k]).dao_address@ == subspaces@[k].dao_address@
                    && out@[k].subspace_address@ == subspaces@[k].subspace@,
        decreases subspaces@.len() - i,
    {
        out.push(
            AddedSubspace {
                dao_address: subspaces[i].dao_address.clone(),
                subspace_address: subspaces[i].subspace.clone(),
            },
        );
        i = i + 1;
    }
    out
}

/// Map subspace-removed events to subspace removals, field by field.
pub fn map_subspaces_removed(subspaces: &Vec<SubspaceRemoved>) -> (r: Vec<RemovedSubspace>)
    ensures
        r@.len() == subspaces@.len(),
        forall|k: int|
            0 <= k < r@.len() ==> (#[trigger] r@[k]).dao_address@ == subspaces@[k].dao_address@
                && r@[k].subspace_address@ == subspaces@[k].subspace@,
{
    let mut out: Vec<RemovedSubspace> = Vec::new();
    let mut i: usize = 0;
    while i < subspaces.len()
        invariant
            i <= subspaces@.len(),
            out@.len() == i,
            forall|k: int|
                0 <= k < i ==> (#[trigger] out@[k]).dao_address@ == subspaces@[k].dao_address@
                    && out@[k].subspace_address@ == subspaces@[k].subspace@,
        decreases subspaces@.len() - i,
    {
        out.push(
            RemovedSubspace {
                dao_address: subspaces[i].dao_address.clone(),
                subspace_address: subspaces[i].subspace.clone(),
            },
        );
        i = i + 1;
    }
    out
}

/// Map member-removed events to removed members, field by field.
pub fn map_members_removed(members: &Vec<MemberRemoved>) -> (r: Vec<RemovedMember>)
    ensures
        r@.len() == members@.len(),
        forall|k: int|
            0 <= k < r@.len() ==> (#[trigger] r@[k]).dao_address@ == members@[k].dao_address@
                && r@[k].editor_address@ == members@[k].member_address@,
{
    let mut out: Vec<RemovedMember> = Vec::new();
    let mut i: usize = 0;
    while i < members.len()
        invariant
            i <= members@.len(),
            out@.len() == i,
            forall|k: int|
                0 <= k < i ==> (#[trigger] out@[k]).dao_address@ == members@[k].dao_address@
                    && out@[k].editor_address@ == members@[k].member_address@,
        decreases members@.len() - i,
    {
        out.push(
            RemovedMember {
                dao_address: members[i].dao_address.clone(),
                editor_address: members[i].member_address.clone(),
            },
        );
        i = i + 1;
    }
    out
}

/// Map editor-removed events to removed members, field by field.
pub fn map_editors_removed(editors: &Vec<EditorRemoved>) -> (r: Vec<RemovedMember>)
    ensures
        r@.len() == editors@.len(),
        forall|k: int|
            0 <= k < r@.len() ==> (#[trigger] r@[k]).dao_address@ == editors@[k].dao_address@
                && r@[k].editor_address@ == editors@[k].editor_address@,
{
    let mut out: Vec<RemovedMember> = Vec::new();
    let mut i: usize = 0;
    while i < editors.len()
        invariant
            i <= editors@.len(),
            out@.len() == i,
            forall|k: int|
                0 <= k < i ==> (#[trigger] out@[k]).dao_address@ == editors@[k].dao_address@
                    && out@[k].editor_address@ == editors@[k].editor_address@,
        decreases editors@.len() - i,
    {
        out.push(
            RemovedMember {
                dao_address: editors[i].dao_address.clone(),
                editor_address: editors[i].editor_address.clone(),
            },
        );
        i = i + 1;
    }
    out
}

/// Map proposal-executed events to executed proposals, field by field.
pub fn map_executed_proposals(proposals: &Vec<ProposalExecuted>) -> (r: Vec<ExecutedProposal>)
    ensures
        r@.len() == proposals@.len(),
        forall|k: int|
            0 <= k < r@.len() ==> (#[trigger] r@[k]).proposal_id@ == proposals@[k].proposal_id@
                && r@[k].plugin_address@ == proposals@[k].plugin_address@,
{
    let mut out: Vec<ExecutedProposal> = Vec::new();
    let mut i: usize = 0;
    while i < proposals.len()
        invariant
            i <= proposals@.len(),
            out@.len() == i,
            forall|k: int|
                0 <= k < i ==> (#[trigger] out@[k]).proposal_id@ == proposals@[k].proposal_id@
                    && out@[k].plugin_address@ == proposals@[k].plugin_address@,
        decreases proposals@.len() - i,
    {
        out.push(
            ExecutedProposal {
                proposal_id: proposals[i].proposal_id.clone(),
                plugin_address: proposals[i].plugin_address.clone(),
            },
        );
        i = i + 1;
    }
    out
}

/// Some string of `s` reads `t`.
pub open spec fn has_text(s: Seq<String>, t: Seq<char>) -> bool {
    exists|i: int| 0 <= i < s.len() && (#[trigger] s[i])@ == t
}

/// The strings of `s`, first occurrences only, in order.
pub open spec fn dedup_texts(s: Seq<String>) -> Seq<String>
    decreases s.len(),
{
    if s.len() == 0 {
        Seq::empty()
    } else {
        let rest = dedup_texts(s.drop_last());
        if has_text(rest, s.last()@) {
            rest
        } else {
            rest.push(s.last())
        }
    }
}

/// The strings of a deduplication read pairwise differently, and a text
/// appears in it exactly when it appears in the input: however many
/// times a URI is mentioned, it is fetched once.
pub proof fn lemma_dedup_texts(s: Seq<String>)
    ensures
        forall|a: int, b: int|
            0 <= a < b < dedup_texts(s).len() ==> (#[trigger] dedup_texts(s)[a])@
                != (#[trigger] dedup_texts(s)[b])@,
        forall|t: Seq<char>| has_text(dedup_texts(s), t) <==> has_text(s, t),
    decreases s.len(),
{
    if s.len() > 0 {
        let front = s.drop_last();
        lemma_dedup_texts(front);
        let rest = dedup_texts(front);
        let t0 = dedup_texts(s);
        assert forall|t: Seq<char>| #[trigger] has_text(s, t) == (has_text(front, t) || s.last()@
            == t) by {
            if has_text(s, t) {
                let k = choose|k: int| 0 <= k < s.len() && (#[trigger] s[k])@ == t;
                if k < s.len() - 1 {
                    assert(front[k]@ == t);
                }
            }
            if has_text(front, t) {
                let k = choose|k: int| 0 <= k < front.len() && (#[trigger] front[k])@ == t;
                assert(s[k]@ == t);
            }
            if s.last()@ == t {
                assert(s[s.len() - 1]@ == t);
            }
        }
        if has_text(rest, s.last()@) {
        } else {
            assert forall|t: Seq<char>| #[trigger] has_text(t0, t) == (has_text(rest, t)
                || s.last()@ == t) by {
                if has_text(t0, t) {
                    let k = choose|k: int| 0 <= k < t0.len() && (#[trigger] t0[k])@ == t;
                    if k < t0.len() - 1 {
                        assert(rest[k]@ == t);
                    }
                }
                if has_text(rest, t) {
                    let k = choose|k: int| 0 <= k < rest.len() && (#[trigger] rest[k])@ == t;
                    assert(t0[k]@ == t);
                }
                if s.last()@ == t {
                    assert(t0[t0.len() - 1]@ == t);
                }
            }
            assert forall|a: int, b: int| 0 <= a < b < t0.len() implies (#[trigger] t0[a])@
                != (#[trigger] t0[b])@ by {
                if b == t0.len() - 1 {
                    assert(t0[a] == rest[a]);
                    if rest[a]@ == s.last()@ {
                        assert(has_text(rest, s.last()@));
                    }
                } else {
                    assert(t0[a] == rest[a] && t0[b] == rest[b]);
                }
            }
        }
    }
}

/// Whether some collected URI reads the same as `uri`.
pub fn contains_text(out: &Vec<String>, uri: &String) -> (b: bool)
    ensures
        b == has_text(out@, uri@),
{
    let mut j: usize = 0;
    while j < out.len()
        invariant
            j <= out@.len(),
            forall|k: int| 0 <= k < j ==> (#[trigger] out@[k])@ != uri@,
        decreases out@.len() - j,
    {
        if out[j] == *uri {
            proof {
                assert((#[trigger] out@[j as int])@ == uri@);
            }
            return true;
        }
        j = j + 1;
    }
    proof {
        if has_text(out@, uri@) {
            let k = choose|k: int| 0 <= k < out@.len() && (#[trigger] out@[k])@ == uri@;
        }
    }
    false
}

/// Deduplicate content URIs, keeping first occurrences in order: each
/// distinct URI appears exactly once, so it is fetched exactly once.
pub fn deduplicate_content_uris(content_uris: Vec<String>) -> (r: Vec<String>)
    ensures
        r@ == dedup_texts(content_uris@),
        forall|a: int, b: int| 0 <= a < b < r@.len() ==> (#[trigger] r@[a])@ != (#[trigger] r@[b])@,
        forall|t: Seq<char>| has_text(r@, t) <==> has_text(content_uris@, t),
{
    let ghost orig = content_uris@;
    let mut rest = content_uris;
    let mut out: Vec<String> = Vec::new();
    let ghost mut i: int = 0;
    while rest.len() > 0
        invariant
            0 <= i <= orig.len(),
            rest@ =~= orig.skip(i),
            out@ == dedup_texts(orig.take(i)),
        decreases rest@.len(),
    {
        let ghost pre = orig.take(i);
        let uri = rest.remove(0);
        proof {
            assert(uri == orig[i]);
        }
        let found = contains_text(&out, &uri);
        if !found {
            out.push(uri);
        }
        proof {
            assert(orig.take(i + 1).drop_last() =~= pre);
            assert(orig.take(i + 1).last() == orig[i]);
            i = i + 1;
            assert(rest@ =~= orig.skip(i));
        }
    }
    proof {
        assert(orig.take(orig.len() as int) =~= orig);
        lemma_dedup_texts(orig);
    }
    out
}

} // verus!

verus! {

/// The DAO addresses whose events are dropped before any processing.
pub struct Blocklist {
    pub dao_addresses: Vec<String>,
}

/// The deployment's blocklist. Nothing is blocklisted by default;
/// deployments extend the list as governance decides.
pub fn get_blocklist() -> (r: Blocklist)
    ensures
        r.dao_addresses@.len() == 0,
{
    Blocklist { dao_addresses: Vec::new() }
}

/// The DAO address is blocklisted.
pub open spec fn blocklisted(bl: Seq<String>, dao: Seq<char>) -> bool {
    has_text(bl, dao)
}

/// The published edits whose DAO is not blocklisted, in order.
pub open spec fn kept_published(
    eps: Seq<crate::chain::EditPublished>,
    bl: Seq<String>,
) -> Seq<crate::chain::EditPublished>
    decreases eps.len(),
{
    if eps.len() == 0 {
        Seq::empty()
    } else {
        kept_published(eps.drop_last(), bl) + (if blocklisted(bl, eps.last().dao_address@) {
            Seq::empty()
        } else {
            seq![eps.last()]
        })
    }
}

/// The texts of a string sequence.
pub open spec fn text_seq(s: Seq<String>) -> Seq<Seq<char>> {
    Seq::new(s.len(), |i: int| s[i]@)
}

/// The content URIs of published edits.
pub open spec fn published_uris(s: Seq<crate::chain::EditPublished>) -> Seq<Seq<char>> {
    Seq::new(s.len(), |i: int| s[i].content_uri@)
}

/// The content URIs of publish-edit proposals.
pub open spec fn proposal_uris(s: Seq<crate::chain::PublishEditProposalCreated>) -> Seq<Seq<char>> {
    Seq::new(s.len(), |i: int| s[i].content_uri@)
}

/// The content URIs of the kept published edits followed by the URIs of
/// every publish-edit proposal: what one block asks the cache for.
pub open spec fn block_uris(
    eps: Seq<crate::chain::EditPublished>,
    proposals: Seq<crate::chain::PublishEditProposalCreated>,
    bl: Seq<String>,
) -> Seq<Seq<char>> {
    published_uris(kept_published(eps, bl)) + proposal_uris(proposals)
}

/// Collect the content URIs the block mentions: every published edit
/// whose DAO is not blocklisted, then every publish-edit proposal.
pub fn collect_content_uris(geo: &GeoOutput, blocklist: &Blocklist) -> (r: Vec<String>)
    ensures
        text_seq(r@) == block_uris(geo.edits_published@, geo.edits@, blocklist.dao_addresses@),
{
    let mut out: Vec<String> = Vec::new();
    let mut i: usize = 0;
    let ghost bl = blocklist.dao_addresses@;
    while i < geo.edits_published.len()
        invariant
            i <= geo.edits_published@.len(),
            bl == blocklist.dao_addresses@,
            text_seq(out@) =~= published_uris(
                kept_published(geo.edits_published@.take(i as int), bl),
            ),
        decreases geo.edits_published@.len() - i,
    {
        let ghost pre = geo.edits_published@.take(i as int);
        let ghost before = out@;
        let ep = &geo.edits_published[i];
        let kept = !contains_text(&blocklist.dao_addresses, &ep.dao_address);
        if kept {
            out.push(ep.content_uri.clone());
        }
        proof {
            assert(geo.edits_published@.take(i + 1 as int).drop_last() =~= pre);
            assert(geo.edits_published@.take(i + 1 as int).last()
                == geo.edits_published@[i as int]);
            if kept {
                assert(text_seq(out@) =~= text_seq(before).push(
                    geo.edits_published@[i as int].content_uri@,
                ));
                assert(kept_published(geo.edits_published@.take(i + 1 as int), bl)
                    =~= kept_published(pre, bl).push(geo.edits_published@[i as int]));
            } else {
                assert(kept_published(geo.edits_published@.take(i + 1 as int), bl)
                    =~= kept_published(pre, bl));
            }
            assert(text_seq(out@) =~= published_uris(
                kept_published(geo.edits_published@.take(i + 1 as int), bl),
            ));
        }
        i = i + 1;
    }
    proof {
        assert(geo.edits_published@.take(geo.edits_published@.len() as int)
            =~= geo.edits_published@);
    }
    let ghost mid = out@;
    let mut i: usize = 0;
    while i < geo.edits.len()
        invariant
            i <= geo.edits@.len(),
            out@.len() == mid.len() + i,
            text_seq(out@) =~= text_seq(mid) + proposal_uris(geo.edits@.take(i as int)),
        decreases geo.edits@.len() - i,
    {
        let ghost before = out@;
        out.push(geo.edits[i].content_uri.clone());
        proof {
            assert(text_seq(out@) =~= text_seq(before).push(geo.edits@[i as int].content_uri@));
            assert(text_seq(out@) =~= text_seq(mid) + proposal_uris(
                geo.edits@.take(i + 1 as int),
            ));
        }
        i = i + 1;
    }
    proof {
        assert(geo.edits@.take(geo.edits@.len() as int) =~= geo.edits@);
        assert(text_seq(out@) =~= block_uris(geo.edits_published@, geo.edits@, bl));
    }
    out
}

/// The DAO address of a created space.
pub open spec fn space_dao(cs: CreatedSpace) -> Seq<char> {
    match cs {
        CreatedSpace::Personal(p) => p.dao_address@,
        CreatedSpace::Public(p) => p.dao_address@,
    }
}

/// Some created space belongs to the DAO.
pub open spec fn created_for_dao(spaces: Seq<CreatedSpace>, dao: Seq<char>) -> bool {
    exists|i: int| 0 <= i < spaces.len() && space_dao(#[trigger] spaces[i]) == dao
}

/// The editors whose DAO created a space in this block, in order: they
/// become initial members of the new space.
pub open spec fn promoted_editors(editors: Seq<AddedMember>, spaces: Seq<CreatedSpace>) -> Seq<
    AddedMember,
>
    decreases editors.len(),
{
    if editors.len() == 0 {
        Seq::empty()
    } else {
        promoted_editors(editors.drop_last(), spaces) + (if created_for_dao(
            spaces,
            editors.last().dao_address@,
        ) {
            seq![editors.last()]
        } else {
            Seq::empty()
        })
    }
}

/// Promote the editors of newly created spaces to members: every added
/// editor whose DAO created a space in this block is appended to the
/// added members.
pub fn promote_initial_members(
    added_members: Vec<AddedMember>,
    added_editors: &Vec<AddedMember>,
    created_spaces: &Vec<CreatedSpace>,
) -> (r: Vec<AddedMember>)
    ensures
        r@ == added_members@ + promoted_editors(added_editors@, created_spaces@),
{
    let ghost base = added_members@;
    let mut out = added_members;
    let mut i: usize = 0;
    while i < added_editors.len()
        invariant
            i <= added_editors@.len(),
            out@ == base + promoted_editors(added_editors@.take(i as int), created_spaces@),
        decreases added_editors@.len() - i,
    {
        let ghost pre = added_editors@.take(i as int);
        let editor = &added_editors[i];
        if space_created_for(created_spaces, &editor.dao_address) {
            let m = AddedMember {
                dao_address: editor.dao_address.clone(),
                editor_address: editor.editor_address.clone(),
            };
            proof {
                assert(m == added_editors@[i as int]);
            }
            out.push(m);
        }
        proof {
            assert(added_editors@.take(i + 1 as int).drop_last() =~= pre);
            assert(added_editors@.take(i + 1 as int).last() == added_editors@[i as int]);
        }
        i = i + 1;
    }
    proof {
        assert(added_editors@.take(added_editors@.len() as int) =~= added_editors@);
    }
    out
}

/// Whether a space was created for the DAO in this block.
fn space_created_for(spaces: &Vec<CreatedSpace>, dao: &String) -> (r: bool)
    ensures
        r == created_for_dao(spaces@, dao@),
{
    let mut j: usize = 0;
    while j < spaces.len()
        invariant
            j <= spaces@.len(),
            forall|k: int| 0 <= k < j ==> space_dao(#[trigger] spaces@[k]) != dao@,
        decreases spaces@.len() - j,
    {
        let matches_dao = match &spaces[j] {
            CreatedSpace::Personal(p) => p.dao_address == *dao,
            CreatedSpace::Public(p) => p.dao_address == *dao,
        };
        if matches_dao {
            proof {
                assert(space_dao(spaces@[j as int]) == dao@);
            }
            return true;
        }
        j = j + 1;
    }
    proof {
        if created_for_dao(spaces@, dao@) {
            let k = choose|k: int| 0 <= k < spaces@.len() && space_dao(#[trigger] spaces@[k])
                == dao@;
        }
    }
    false
}

/// The edit id correlated for a content URI: the cached edit's id when
/// the row exists, is not errored, carries a decoded edit, and the id
/// is exactly sixteen bytes; `None` in every other case.
pub open spec fn correlated_edit_id(m: Map<Seq<char>, PreprocessedEdit>, uri: Seq<char>) -> Option<
    Uid,
> {
    if m.contains_key(uri) {
        let e = m[uri];
        if !e.is_errored {
            match e.edit {
                Some(ed) => if ed.id@.len() == 16 {
                    Some(uid_of_bytes(ed.id@))
                } else {
                    None
                },
                None => None,
            }
        } else {
            None
        }
    } else {
        None
    }
}

/// How one created-proposal record mirrors its event.
pub open spec fn publish_edit_created_matches(
    p: crate::chain::PublishEditProposalCreated,
    m: Map<Seq<char>, PreprocessedEdit>,
    out: ProposalCreated,
) -> bool {
    match out {
        ProposalCreated::PublishEdit {
            proposal_id,
            creator,
            start_time,
            end_time,
            content_uri,
            dao_address,
            plugin_address,
            edit_id,
        } => {
            &&& proposal_id@ == p.proposal_id@
            &&& creator@ == p.creator@
            &&& start_time@ == p.start_time@
            &&& end_time@ == p.end_time@
            &&& content_uri@ == p.content_uri@
            &&& dao_address@ == p.dao_address@
            &&& plugin_address@ == p.plugin_address@
            &&& edit_id == correlated_edit_id(m, p.content_uri@)
        },
        _ => false,
    }
}

/// The derived id every non-publish proposal record carries.
pub open spec fn derived_id_of(
    dao: Seq<char>,
    proposal_id: Seq<char>,
    plugin: Seq<char>,
) -> Uid {
    crate::ids::spec_proposal_id(dao, proposal_id, plugin)
}

/// One `PublishEdit` record per publish-edit proposal, in order, each
/// correlated with the id of its cached edit.
fn map_publish_edit_proposals(
    events: &Vec<crate::chain::PublishEditProposalCreated>,
    cache_map: &CacheMap,
) -> (r: Vec<ProposalCreated>)
    requires
        cache_map.wf(),
    ensures
        r@.len() == events@.len(),
        forall|k: int|
            0 <= k < r@.len() ==> publish_edit_created_matches(
                events@[k],
                cache_map@,
                #[trigger] r@[k],
            ),
{
    let mut out: Vec<ProposalCreated> = Vec::new();
    let mut i: usize = 0;
    while i < events.len()
        invariant
            cache_map.wf(),
            i <= events@.len(),
            out@.len() == i,
            forall|k: int|
                0 <= k < i ==> publish_edit_created_matches(
                    events@[k],
                    cache_map@,
                    #[trigger] out@[k],
                ),
        decreases events@.len() - i,
    {
        let p = &events[i];
        let edit_id: Option<Uid> = match cache_map.get(&p.content_uri) {
            Some(row) => {
                if !row.is_errored {
                    match &row.edit {
                        Some(rc) => {
                            let ed = crate::edit::rc_borrow(rc);
                            if ed.id.len() == 16 {
                                Some(Uid::from_byte_vec(&ed.id))
                            } else {
                                None
                            }
                        },
                        None => None,
                    }
                } else {
                    None
                }
            },
            None => None,
        };
        out.push(
            ProposalCreated::PublishEdit {
                proposal_id: p.proposal_id.clone(),
                creator: p.creator.clone(),
                start_time: p.start_time.clone(),
                end_time: p.end_time.clone(),
                content_uri: p.content_uri.clone(),
                dao_address: p.dao_address.clone(),
                plugin_address: p.plugin_address.clone(),
                edit_id,
            },
        );
        i = i + 1;
    }
    out
}

/// How one `AddMember` record mirrors its event: the id derived from
/// `(dao, proposal_id, plugin)` and the event fields carried over.
pub open spec fn map_add_member_proposals_matches(p: crate::chain::AddMemberProposalCreated, out: ProposalCreated) -> bool {
    out matches ProposalCreated::AddMember {
        id,
        proposal_id,
        creator,
        start_time,
        end_time,
        member,
        dao_address,
        plugin_address,
        change_type,
    } && id == derived_id_of(p.dao_address@, p.proposal_id@, p.plugin_address@) && proposal_id@
        == p.proposal_id@ && creator@ == p.creator@ && start_time@ == p.start_time@ && end_time@
        == p.end_time@ && member@ == p.member@ && dao_address@ == p.dao_address@
        && plugin_address@ == p.plugin_address@ && change_type@ == p.change_type@
}

/// One `AddMember` record per event, in order.
fn map_add_member_proposals(events: &Vec<crate::chain::AddMemberProposalCreated>) -> (r: Vec<ProposalCreated>)
    ensures
        r@.len() == events@.len(),
        forall|k: int| 0 <= k < r@.len() ==> map_add_member_proposals_matches(events@[k], #[trigger] r@[k]),
{
    let mut out: Vec<ProposalCreated> = Vec::new();
    let mut i: usize = 0;
    while i < events.len()
        invariant
            i <= events@.len(),
            out@.len() == i,
            forall|k: int| 0 <= k < i ==> map_add_member_proposals_matches(events@[k], #[trigger] out@[k]),
        decreases events@.len() - i,
    {
        let p = &events[i];
        let id = derive_proposal_id(
            p.dao_address.as_str(),
            p.proposal_id.as_str(),
            p.plugin_address.as_str(),
        );
        out.push(
            ProposalCreated::AddMember {
                id,
                proposal_id: p.proposal_id.clone(),
                creator: p.creator.clone(),
                start_time: p.start_time.clone(),
                end_time: p.end_time.clone(),
                member: p.member.clone(),
                dao_address: p.dao_address.clone(),
                plugin_address: p.plugin_address.clone(),
                change_type: p.change_type.clone(),
            },
        );
        i = i + 1;
    }
    out
}

/// How one `RemoveMember` record mirrors its event: the id derived from
/// `(dao, proposal_id, plugin)` and the event fields carried over.
pub open spec fn map_remove_member_proposals_matches(p: crate::chain::RemoveMemberProposalCreated, out: ProposalCreated) -> bool {
    out matches ProposalCreated::RemoveMember {
        id,
        proposal_id,
        creator,
        start_time,
        end_time,
        member,
        dao_address,
        plugin_address,
        change_type,
    } && id == derived_id_of(p.dao_address@, p.proposal_id@, p.plugin_address@) && proposal_id@
        == p.proposal_id@ && creator@ == p.creator@ && start_time@ == p.start_time@ && end_time@
        == p.end_time@ && member@ == p.member@ && dao_address@ == p.dao_address@
        && plugin_address@ == p.plugin_address@ && change_type@ == p.change_type@
}

/// One `RemoveMember` record per event, in order.
fn map_remove_member_proposals(events: &Vec<crate::chain::RemoveMemberProposalCreated>) -> (r: Vec<ProposalCreated>)
    ensures
        r@.len() == events@.len(),
        forall|k: int| 0 <= k < r@.len() ==> map_remove_member_proposals_matches(events@[k], #[trigger] r@[k]),
{
    let mut out: Vec<ProposalCreated> = Vec::new();
    let mut i: usize = 0;
    while i < events.len()
        invariant
            i <= events@.len(),
            out@.len() == i,
            forall|k: int| 0 <= k < i ==> map_remove_member_proposals_matches(events@[k], #[trigger] out@[k]),
        decreases events@.len() - i,
    {
        let p = &events[i];
        let id = derive_proposal_id(
            p.dao_address.as_str(),
            p.proposal_id.as_str(),
            p.plugin_address.as_str(),
        );
        out.push(
            ProposalCreated::RemoveMember {
                id,
                proposal_id: p.proposal_id.clone(),
                creator: p.creator.clone(),
                start_time: p.start_time.clone(),
                end_time: p.end_time.clone(),
                member: p.member.clone(),
                dao_address: p.dao_address.clone(),
                plugin_address: p.plugin_address.clone(),
                change_type: p.change_type.clone(),
            },
        );
        i = i + 1;
    }
    out
}

/// How one `AddEditor` record mirrors its event: the id derived from
/// `(dao, proposal_id, plugin)` and the event fields carried over.
pub open spec fn map_add_editor_proposals_matches(p: crate::chain::AddEditorProposalCreated, out: ProposalCreated) -> bool {
    out matches ProposalCreated::AddEditor {
        id,
        proposal_id,
        creator,
        start_time,
        end_time,
        editor,
        dao_address,
        plugin_address,
        change_type,
    } && id == derived_id_of(p.dao_address@, p.proposal_id@, p.plugin_address@) && proposal_id@
        == p.proposal_id@ && creator@ == p.creator@ && start_time@ == p.start_time@ && end_time@
        == p.end_time@ && editor@ == p.editor@ && dao_address@ == p.dao_address@
        && plugin_address@ == p.plugin_address@ && change_type@ == p.change_type@
}

/// One `AddEditor` record per event, in order.
fn map_add_editor_proposals(events: &Vec<crate::chain::AddEditorProposalCreated>) -> (r: Vec<ProposalCreated>)
    ensures
        r@.len() == events@.len(),
        forall|k: int| 0 <= k < r@.len() ==> map_add_editor_proposals_matches(events@[k], #[trigger] r@[k]),
{
    let mut out: Vec<ProposalCreated> = Vec::new();
    let mut i: usize = 0;
    while i < events.len()
        invariant
            i <= events@.len(),
            out@.len() == i,
            forall|k: int| 0 <= k < i ==> map_add_editor_proposals_matches(events@[k], #[trigger] out@[k]),
        decreases events@.len() - i,
    {
        let p = &events[i];
        let id = derive_proposal_id(
            p.dao_address.as_str(),
            p.proposal_id.as_str(),
            p.plugin_address.as_str(),
        );
        out.push(
            ProposalCreated::AddEditor {
                id,
                proposal_id: p.proposal_id.clone(),
                creator: p.creator.clone(),
                start_time: p.start_time.clone(),
                end_time: p.end_time.clone(),
                editor: p.editor.clone(),
                dao_address: p.dao_address.clone(),
                plugin_address: p.plugin_address.clone(),
                change_type: p.change_type.clone(),
            },
        );
        i = i + 1;
    }
    out
}

/// How one `RemoveEditor` record mirrors its event: the id derived from
/// `(dao, proposal_id, plugin)` and the event fields carried over.
pub open spec fn map_remove_editor_proposals_matches(p: crate::chain::RemoveEditorProposalCreated, out: ProposalCreated) -> bool {
    out matches ProposalCreated::RemoveEditor {
        id,
        proposal_id,
        creator,
        start_time,
        end_time,
        editor,
        dao_address,
        plugin_address,
        change_type,
    } && id == derived_id_of(p.dao_address@, p.proposal_id@, p.plugin_address@) && proposal_id@
        == p.proposal_id@ && creator@ == p.creator@ && start_time@ == p.start_time@ && end_time@
        == p.end_time@ && editor@ == p.editor@ && dao_address@ == p.dao_address@
        && plugin_address@ == p.plugin_address@ && change_type@ == p.change_type@
}

/// One `RemoveEditor` record per event, in order.
fn map_remove_editor_proposals(events: &Vec<crate::chain::RemoveEditorProposalCreated>) -> (r: Vec<ProposalCreated>)
    ensures
        r@.len() == events@.len(),
        forall|k: int| 0 <= k < r@.len() ==> map_remove_editor_proposals_matches(events@[k], #[trigger] r@[k]),
{
    let mut out: Vec<ProposalCreated> = Vec::new();
    let mut i: usize = 0;
    while i < events.len()
        invariant
            i <= events@.len(),
            out@.len() == i,
            forall|k: int| 0 <= k < i ==> map_remove_editor_proposals_matches(events@[k], #[trigger] out@[k]),
        decreases events@.len() - i,
    {
        let p = &events[i];
        let id = derive_proposal_id(
            p.dao_address.as_str(),
            p.proposal_id.as_str(),
            p.plugin_address.as_str(),
        );
        out.push(
            ProposalCreated::RemoveEditor {
                id,
                proposal_id: p.proposal_id.clone(),
                creator: p.creator.clone(),
                start_time: p.start_time.clone(),
                end_time: p.end_time.clone(),
                editor: p.editor.clone(),
                dao_address: p.dao_address.clone(),
                plugin_address: p.plugin_address.clone(),
                change_type: p.change_type.clone(),
            },
        );
        i = i + 1;
    }
    out
}

/// How one `AddSubspace` record mirrors its event: the id derived from
/// `(dao, proposal_id, plugin)` and the event fields carried over.
pub open spec fn map_add_subspace_proposals_matches(p: crate::chain::AddSubspaceProposalCreated, out: ProposalCreated) -> bool {
    out matches ProposalCreated::AddSubspace {
        id,
        proposal_id,
        creator,
        start_time,
        end_time,
        subspace,
        dao_address,
        plugin_address,
        change_type,
    } && id == derived_id_of(p.dao_address@, p.proposal_id@, p.plugin_address@) && proposal_id@
        == p.proposal_id@ && creator@ == p.creator@ && start_time@ == p.start_time@ && end_time@
        == p.end_time@ && subspace@ == p.subspace@ && dao_address@ == p.dao_address@
        && plugin_address@ == p.plugin_address@ && change_type@ == p.change_type@
}

/// One `AddSubspace` record per event, in order.
fn map_add_subspace_proposals(events: &Vec<crate::chain::AddSubspaceProposalCreated>) -> (r: Vec<ProposalCreated>)
    ensures
        r@.len() == events@.len(),
        forall|k: int| 0 <= k < r@.len() ==> map_add_subspace_proposals_matches(events@[k], #[trigger] r@[k]),
{
    let mut out: Vec<ProposalCreated> = Vec::new();
    let mut i: usize = 0;
    while i < events.len()
        invariant
            i <= events@.len(),
            out@.len() == i,
            forall|k: int| 0 <= k < i ==> map_add_subspace_proposals_matches(events@[k], #[trigger] out@[k]),
        decreases events@.len() - i,
    {
        let p = &events[i];
        let id = derive_proposal_id(
            p.dao_address.as_str(),
            p.proposal_id.as_str(),
            p.plugin_address.as_str(),
        );
        out.push(
            ProposalCreated::AddSubspace {
                id,
                proposal_id: p.proposal_id.clone(),
                creator: p.creator.clone(),
                start_time: p.start_time.clone(),
                end_time: p.end_time.clone(),
                subspace: p.subspace.clone(),
                dao_address: p.dao_address.clone(),
                plugin_address: p.plugin_address.clone(),
                change_type: p.change_type.clone(),
            },
        );
        i = i + 1;
    }
    out
}

/// How one `RemoveSubspace` record mirrors its event: the id derived from
/// `(dao, proposal_id, plugin)` and the event fields carried over.
pub open spec fn map_remove_subspace_proposals_matches(p: crate::chain::RemoveSubspaceProposalCreated, out: ProposalCreated) -> bool {
    out matches ProposalCreated::RemoveSubspace {
        id,
        proposal_id,
        creator,
        start_time,
        end_time,
        subspace,
        dao_address,
        plugin_address,
        change_type,
    } && id == derived_id_of(p.dao_address@, p.proposal_id@, p.plugin_address@) && proposal_id@
        == p.proposal_id@ && creator@ == p.creator@ && start_time@ == p.start_time@ && end_time@
        == p.end_time@ && subspace@ == p.subspace@ && dao_address@ == p.dao_address@
        && plugin_address@ == p.plugin_address@ && change_type@ == p.change_type@
}

/// One `RemoveSubspace` record per event, in order.
fn map_remove_subspace_proposals(events: &Vec<crate::chain::RemoveSubspaceProposalCreated>) -> (r: Vec<ProposalCreated>)
    ensures
        r@.len() == events@.len(),
        forall|k: int| 0 <= k < r@.len() ==> map_remove_subspace_proposals_matches(events@[k], #[trigger] r@[k]),
{
    let mut out: Vec<ProposalCreated> = Vec::new();
    let mut i: usize = 0;
    while i < events.len()
        invariant
            i <= events@.len(),
            out@.len() == i,
            forall|k: int| 0 <= k < i ==> map_remove_subspace_proposals_matches(events@[k], #[trigger] out@[k]),
        decreases events@.len() - i,
    {
        let p = &events[i];
        let id = derive_proposal_id(
            p.dao_address.as_str(),
            p.proposal_id.as_str(),
            p.plugin_address.as_str(),
        );
        out.push(
            ProposalCreated::RemoveSubspace {
                id,
                proposal_id: p.proposal_id.clone(),
                creator: p.creator.clone(),
                start_time: p.start_time.clone(),
                end_time: p.end_time.clone(),
                subspace: p.subspace.clone(),
                dao_address: p.dao_address.clone(),
                plugin_address: p.plugin_address.clone(),
                change_type: p.change_type.clone(),
            },
        );
        i = i + 1;
    }
    out
}


/// True when the created-proposal records mirror the block's events:
/// publish-edit proposals first, each correlated against the cache,
/// then member, editor and subspace proposals, each with its derived
/// id, in event order.
pub open spec fn created_proposals_match(
    geo: GeoOutput,
    m: Map<Seq<char>, PreprocessedEdit>,
    r: Seq<ProposalCreated>,
) -> bool {
    let n0 = geo.edits@.len() as int;
    let n1 = n0 + geo.proposed_added_members@.len();
    let n2 = n1 + geo.proposed_removed_members@.len();
    let n3 = n2 + geo.proposed_added_editors@.len();
    let n4 = n3 + geo.proposed_removed_editors@.len();
    let n5 = n4 + geo.proposed_added_subspaces@.len();
    let n6 = n5 + geo.proposed_removed_subspaces@.len();
    &&& r.len() == n6
    &&& forall|k: int|
        0 <= k < n0 ==> publish_edit_created_matches(geo.edits@[k], m, #[trigger] r[k])
    &&& forall|k: int|
        n0 <= k < n1 ==> map_add_member_proposals_matches(
            geo.proposed_added_members@[k - n0],
            #[trigger] r[k],
        )
    &&& forall|k: int|
        n1 <= k < n2 ==> map_remove_member_proposals_matches(
            geo.proposed_removed_members@[k - n1],
            #[trigger] r[k],
        )
    &&& forall|k: int|
        n2 <= k < n3 ==> map_add_editor_proposals_matches(
            geo.proposed_added_editors@[k - n2],
            #[trigger] r[k],
        )
    &&& forall|k: int|
        n3 <= k < n4 ==> map_remove_editor_proposals_matches(
            geo.proposed_removed_editors@[k - n3],
            #[trigger] r[k],
        )
    &&& forall|k: int|
        n4 <= k < n5 ==> map_add_subspace_proposals_matches(
            geo.proposed_added_subspaces@[k - n4],
            #[trigger] r[k],
        )
    &&& forall|k: int|
        n5 <= k < n6 ==> map_remove_subspace_proposals_matches(
            geo.proposed_removed_subspaces@[k - n5],
            #[trigger] r[k],
        )
}

/// All created proposals of a block, in event order.
pub fn map_created_proposals(geo: &GeoOutput, cache_map: &CacheMap) -> (r: Vec<ProposalCreated>)
    requires
        cache_map.wf(),
    ensures
        created_proposals_match(*geo, cache_map@, r@),
{
    let mut out = map_publish_edit_proposals(&geo.edits, cache_map);
    let mut s1 = map_add_member_proposals(&geo.proposed_added_members);
    let mut s2 = map_remove_member_proposals(&geo.proposed_removed_members);
    let mut s3 = map_add_editor_proposals(&geo.proposed_added_editors);
    let mut s4 = map_remove_editor_proposals(&geo.proposed_removed_editors);
    let mut s5 = map_add_subspace_proposals(&geo.proposed_added_subspaces);
    let mut s6 = map_remove_subspace_proposals(&geo.proposed_removed_subspaces);
    out.append(&mut s1);
    out.append(&mut s2);
    out.append(&mut s3);
    out.append(&mut s4);
    out.append(&mut s5);
    out.append(&mut s6);
    out
}

} // verus!

verus! {

/// Added members mirror member-added events, field by field.
pub open spec fn members_added_match(r: Seq<AddedMember>, e: Seq<MemberAdded>) -> bool {
    r.len() == e.len() && forall|k: int|
        0 <= k < r.len() ==> (#[trigger] r[k]).dao_address@ == e[k].dao_address@
            && r[k].editor_address@ == e[k].member_address@
}

/// Added editors mirror editor-added events, field by field.
pub open spec fn editors_added_match(r: Seq<AddedMember>, e: Seq<EditorAdded>) -> bool {
    r.len() == e.len() && forall|k: int|
        0 <= k < r.len() ==> (#[trigger] r[k]).dao_address@ == e[k].dao_address@
            && r[k].editor_address@ == e[k].editor_address@
}

/// Removed members mirror member-removed events, field by field.
pub open spec fn members_removed_match(r: Seq<RemovedMember>, e: Seq<MemberRemoved>) -> bool {
    r.len() == e.len() && forall|k: int|
        0 <= k < r.len() ==> (#[trigger] r[k]).dao_address@ == e[k].dao_address@
            && r[k].editor_address@ == e[k].member_address@
}

/// Removed editors mirror editor-removed events, field by field.
pub open spec fn editors_removed_match(r: Seq<RemovedMember>, e: Seq<EditorRemoved>) -> bool {
    r.len() == e.len() && forall|k: int|
        0 <= k < r.len() ==> (#[trigger] r[k]).dao_address@ == e[k].dao_address@
            && r[k].editor_address@ == e[k].editor_address@
}

/// Added subspaces mirror subspace-added events, field by field.
pub open spec fn subspaces_added_match(r: Seq<AddedSubspace>, e: Seq<SubspaceAdded>) -> bool {
    r.len() == e.len() && forall|k: int|
        0 <= k < r.len() ==> (#[trigger] r[k]).dao_address@ == e[k].dao_address@
            && r[k].subspace_address@ == e[k].subspace@
}

/// Removed subspaces mirror subspace-removed events, field by field.
pub open spec fn subspaces_removed_match(r: Seq<RemovedSubspace>, e: Seq<SubspaceRemoved>) -> bool {
    r.len() == e.len() && forall|k: int|
        0 <= k < r.len() ==> (#[trigger] r[k]).dao_address@ == e[k].dao_address@
            && r[k].subspace_address@ == e[k].subspace@
}

/// Executed proposals mirror proposal-executed events, field by field.
pub open spec fn executed_match(r: Seq<ExecutedProposal>, e: Seq<ProposalExecuted>) -> bool {
    r.len() == e.len() && forall|k: int|
        0 <= k < r.len() ==> (#[trigger] r[k]).proposal_id@ == e[k].proposal_id@
            && r[k].plugin_address@ == e[k].plugin_address@
}

/// One in-flight edit mirrors its cache row: same URI, the same shared
/// payload, the same error mark and space.
pub open spec fn pe_like(row: PreprocessedEdit, cached: PreprocessedEdit) -> bool {
    row.cid@ == cached.cid@ && row.edit == cached.edit && row.is_errored == cached.is_errored
        && row.space_id == cached.space_id
}

/// The cache rows the kept published edits resolve to, in order; a URI
/// with no cache row is skipped.
pub open spec fn resolved_rows(
    kept: Seq<crate::chain::EditPublished>,
    m: Map<Seq<char>, PreprocessedEdit>,
) -> Seq<PreprocessedEdit>
    decreases kept.len(),
{
    if kept.len() == 0 {
        Seq::empty()
    } else {
        resolved_rows(kept.drop_last(), m) + (if m.contains_key(kept.last().content_uri@) {
            seq![m[kept.last().content_uri@]]
        } else {
            Seq::empty()
        })
    }
}

/// Preprocess one block: filter out blocklisted DAOs, resolve the kept
/// published edits against the cache, match created spaces with their
/// plugins, promote editors of newly created spaces to initial members,
/// and correlate created proposals with their cached edit ids.
pub fn preprocess_block(
    geo: &GeoOutput,
    block: BlockMetadata,
    cache_map: &CacheMap,
    blocklist: &Blocklist,
) -> (kg: KgData)
    requires
        cache_map.wf(),
    ensures
        kg.block == block,
        kg.spaces@ == spec_match_spaces(
            geo.spaces_created@,
            geo.governance_plugins_created@,
            geo.personal_plugins_created@,
        ),
        editors_added_match(kg.added_editors@, geo.editors_added@),
        kg.added_members@.len() == geo.members_added@.len() + promoted_editors(
            kg.added_editors@,
            kg.spaces@,
        ).len(),
        members_added_match(
            kg.added_members@.take(geo.members_added@.len() as int),
            geo.members_added@,
        ),
        kg.added_members@.skip(geo.members_added@.len() as int) == promoted_editors(
            kg.added_editors@,
            kg.spaces@,
        ),
        members_removed_match(kg.removed_members@, geo.members_removed@),
        editors_removed_match(kg.removed_editors@, geo.editors_removed@),
        subspaces_added_match(kg.added_subspaces@, geo.subspaces_added@),
        subspaces_removed_match(kg.removed_subspaces@, geo.subspaces_removed@),
        executed_match(kg.executed_proposals@, geo.executed_proposals@),
        created_proposals_match(*geo, cache_map@, kg.created_proposals@),
        ({
            let rows = resolved_rows(
                kept_published(geo.edits_published@, blocklist.dao_addresses@),
                cache_map@,
            );
            kg.edits@.len() == rows.len() && forall|k: int|
                0 <= k < rows.len() ==> pe_like(#[trigger] kg.edits@[k], rows[k])
        }),
{
    let ghost bl = blocklist.dao_addresses@;
    let mut final_edits: Vec<PreprocessedEdit> = Vec::new();
    let mut i: usize = 0;
    while i < geo.edits_published.len()
        invariant
            cache_map.wf(),
            i <= geo.edits_published@.len(),
            bl == blocklist.dao_addresses@,
            ({
                let rows = resolved_rows(
                    kept_published(geo.edits_published@.take(i as int), bl),
                    cache_map@,
                );
                final_edits@.len() == rows.len() && forall|k: int|
                    0 <= k < rows.len() ==> pe_like(#[trigger] final_edits@[k], rows[k])
            }),
        decreases geo.edits_published@.len() - i,
    {
        let ghost pre = geo.edits_published@.take(i as int);
        let ep = &geo.edits_published[i];
        let kept = !contains_text(&blocklist.dao_addresses, &ep.dao_address);
        if kept {
            match cache_map.get(&ep.content_uri) {
                Some(row) => {
                    final_edits.push(row.duplicate());
                },
                None => {},
            }
        }
        proof {
            assert(geo.edits_published@.take(i + 1 as int).drop_last() =~= pre);
            assert(geo.edits_published@.take(i + 1 as int).last()
                == geo.edits_published@[i as int]);
            if kept {
                assert(kept_published(geo.edits_published@.take(i + 1 as int), bl)
                    =~= kept_published(pre, bl).push(geo.edits_published@[i as int]));
                assert(kept_published(pre, bl).push(geo.edits_published@[i as int]).drop_last()
                    =~= kept_published(pre, bl));
            } else {
                assert(kept_published(geo.edits_published@.take(i + 1 as int), bl)
                    =~= kept_published(pre, bl));
            }
        }
        i = i + 1;
    }
    proof {
        assert(geo.edits_published@.take(geo.edits_published@.len() as int)
            =~= geo.edits_published@);
    }
    let created_spaces = match_spaces_with_plugins(
        &geo.spaces_created,
        &geo.governance_plugins_created,
        &geo.personal_plugins_created,
    );
    let added_editors = map_editors_added(&geo.editors_added);
    let added_members = map_members_added(&geo.members_added);
    let ghost base_members = added_members@;
    let added_members = promote_initial_members(added_members, &added_editors, &created_spaces);
    let added_subspaces = map_subspaces_added(&geo.subspaces_added);
    let removed_subspaces = map_subspaces_removed(&geo.subspaces_removed);
    let removed_members = map_members_removed(&geo.members_removed);
    let removed_editors = map_editors_removed(&geo.editors_removed);
    let executed_proposals = map_executed_proposals(&geo.executed_proposals);
    let created_proposals = map_created_proposals(geo, cache_map);
    proof {
        assert(added_members@.take(geo.members_added@.len() as int) =~= base_members);
        assert(added_members@.skip(geo.members_added@.len() as int) =~= promoted_editors(
            added_editors@,
            created_spaces@,
        ));
    }
    KgData {
        block,
        edits: final_edits,
        spaces: created_spaces,
        added_editors,
        added_members,
        removed_editors,
        removed_members,
        added_subspaces,
        removed_subspaces,
        executed_proposals,
        created_proposals,
    }
}

} // verus!

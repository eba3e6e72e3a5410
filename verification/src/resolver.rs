//! The content resolver's decisions, and the cursor store both services
//! share.
//!
//! The resolver's job is to give every content URI referenced on-chain
//! exactly one cache row. Fetching runs outside the library; here live
//! the decisions: which events of a block need resolving, whether a URI
//! needs a fetch at all, and what row an outcome produces. The cursor
//! store records, per service, how far the stream has been consumed;
//! its block numbers never move backwards.

use vstd::prelude::*;
use vstd::string::StringExecFns;
use crate::chain::GeoOutput;
use crate::edit::{Edit, PreprocessedEdit};
use crate::ids::{derive_space_id, geo_network, spec_space_id};
use crate::preprocess::{blocklisted, Blocklist, contains_text};
use crate::uid::Uid;

verus! {

/// One event that references content to resolve: the capability set the
/// resolver needs, whatever the event's kind.
#[derive(Clone, Debug)]
pub struct CacheableEvent {
    pub content_uri: String,
    pub dao_address: String,
    pub description: String,
}

/// A cache row ready to be written: the decoded payload, or the mark
/// that the content exists but could not be fetched or decoded.
#[derive(Debug)]
pub struct CacheItem {
    pub uri: String,
    pub json: Option<std::rc::Rc<Edit>>,
    pub block: String,
    pub space: Uid,
    pub is_errored: bool,
}

/// The cacheable events of one block, in order: every published edit
/// and every publish-edit proposal whose DAO is not blocklisted.
pub open spec fn cacheable_events(geo: GeoOutput, bl: Seq<String>) -> Seq<(Seq<char>, Seq<char>)> {
    published_events(geo.edits_published@, bl) + proposal_events(geo.edits@, bl)
}

/// The `(uri, dao)` pairs of the non-blocklisted published edits.
pub open spec fn published_events(
    eps: Seq<crate::chain::EditPublished>,
    bl: Seq<String>,
) -> Seq<(Seq<char>, Seq<char>)>
    decreases eps.len(),
{
    if eps.len() == 0 {
        Seq::empty()
    } else {
        published_events(eps.drop_last(), bl) + (if blocklisted(bl, eps.last().dao_address@) {
            Seq::empty()
        } else {
            seq![(eps.last().content_uri@, eps.last().dao_address@)]
        })
    }
}

/// The `(uri, dao)` pairs of the non-blocklisted publish-edit proposals.
pub open spec fn proposal_events(
    ps: Seq<crate::chain::PublishEditProposalCreated>,
    bl: Seq<String>,
) -> Seq<(Seq<char>, Seq<char>)>
    decreases ps.len(),
{
    if ps.len() == 0 {
        Seq::empty()
    } else {
        proposal_events(ps.drop_last(), bl) + (if blocklisted(bl, ps.last().dao_address@) {
            Seq::empty()
        } else {
            seq![(ps.last().content_uri@, ps.last().dao_address@)]
        })
    }
}

/// Collect the cacheable events of one block: published edits first,
/// then publish-edit proposals, each skipped when its DAO is
/// blocklisted.
pub fn collect_cacheable_events(geo: &GeoOutput, blocklist: &Blocklist) -> (r: Vec<CacheableEvent>)
    ensures
        r@.len() == cacheable_events(*geo, blocklist.dao_addresses@).len(),
        forall|k: int|
            0 <= k < r@.len() ==> {
                &&& (#[trigger] r@[k]).content_uri@ == cacheable_events(
                    *geo,
                    blocklist.dao_addresses@,
                )[k].0
                &&& r@[k].dao_address@ == cacheable_events(*geo, blocklist.dao_addresses@)[k].1
            },
{
    let ghost bl = blocklist.dao_addresses@;
    let mut out: Vec<CacheableEvent> = Vec::new();
    let mut i: usize = 0;
    while i < geo.edits_published.len()
        invariant
            i <= geo.edits_published@.len(),
            bl == blocklist.dao_addresses@,
            out@.len() == published_events(geo.edits_published@.take(i as int), bl).len(),
            forall|k: int|
                0 <= k < out@.len() ==> {
                    &&& (#[trigger] out@[k]).content_uri@ == published_events(
                        geo.edits_published@.take(i as int),
                        bl,
                    )[k].0
                    &&& out@[k].dao_address@ == published_events(
                        geo.edits_published@.take(i as int),
                        bl,
                    )[k].1
                },
        decreases geo.edits_published@.len() - i,
    {
        let ghost pre = geo.edits_published@.take(i as int);
        let ep = &geo.edits_published[i];
        if !contains_text(&blocklist.dao_addresses, &ep.dao_address) {
            let mut description = String::from_str("published edit ");
            description.append(ep.content_uri.as_str());
            out.push(
                CacheableEvent {
                    content_uri: ep.content_uri.clone(),
                    dao_address: ep.dao_address.clone(),
                    description,
                },
            );
        }
        proof {
            assert(geo.edits_published@.take(i + 1 as int).drop_last() =~= pre);
            assert(geo.edits_published@.take(i + 1 as int).last()
                == geo.edits_published@[i as int]);
        }
        i = i + 1;
    }
    proof {
        assert(geo.edits_published@.take(geo.edits_published@.len() as int)
            =~= geo.edits_published@);
    }
    let ghost base = published_events(geo.edits_published@, bl);
    let mut i: usize = 0;
    while i < geo.edits.len()
        invariant
            i <= geo.edits@.len(),
            bl == blocklist.dao_addresses@,
            out@.len() == base.len() + proposal_events(geo.edits@.take(i as int), bl).len(),
            forall|k: int|
                0 <= k < out@.len() ==> {
                    &&& (#[trigger] out@[k]).content_uri@ == (base + proposal_events(
                        geo.edits@.take(i as int),
                        bl,
                    ))[k].0
                    &&& out@[k].dao_address@ == (base + proposal_events(
                        geo.edits@.take(i as int),
                        bl,
                    ))[k].1
                },
        decreases geo.edits@.len() - i,
    {
        let ghost pre = geo.edits@.take(i as int);
        let p = &geo.edits[i];
        if !contains_text(&blocklist.dao_addresses, &p.dao_address) {
            let mut description = String::from_str("proposal ");
            description.append(p.proposal_id.as_str());
            description.append(" with uri ");
            description.append(p.content_uri.as_str());
            out.push(
                CacheableEvent {
                    content_uri: p.content_uri.clone(),
                    dao_address: p.dao_address.clone(),
                    description,
                },
            );
        }
        proof {
            assert(geo.edits@.take(i + 1 as int).drop_last() =~= pre);
            assert(geo.edits@.take(i + 1 as int).last() == geo.edits@[i as int]);
        }
        i = i + 1;
    }
    proof {
        assert(geo.edits@.take(geo.edits@.len() as int) =~= geo.edits@);
    }
    out
}

/// What the resolver decides for one event, given whether the cache
/// already has the URI and what the fetch produced: an already-cached
/// URI needs nothing; a fetched and decoded payload becomes a regular
/// row; a failed fetch or decode becomes an errored row. Either way the
/// row's space comes from the event's DAO.
pub fn resolve_event(
    event: &CacheableEvent,
    block_timestamp: &String,
    already_cached: bool,
    fetched: Option<std::rc::Rc<Edit>>,
) -> (r: Option<CacheItem>)
    ensures
        already_cached <==> r is None,
        r matches Some(item) ==> {
            &&& item.uri@ == event.content_uri@
            &&& item.block@ == block_timestamp@
            &&& item.space == spec_space_id("geo"@, event.dao_address@)
            &&& item.json == fetched
            &&& item.is_errored == (fetched is None)
        },
{
    if already_cached {
        return None;
    }
    let space = derive_space_id(geo_network(), event.dao_address.as_str());
    let is_errored = fetched.is_none();
    Some(
        CacheItem {
            uri: event.content_uri.clone(),
            json: fetched,
            block: block_timestamp.clone(),
            space,
            is_errored,
        },
    )
}

/// One persisted cursor: how far a service has consumed the stream.
#[derive(Clone, Debug)]
pub struct CursorRow {
    pub id: String,
    pub cursor: String,
    pub block_number: u64,
}

/// The persisted cursors, one row per service id.
pub struct CursorStore {
    rows: Vec<CursorRow>,
}

/// Some cursor row carries the service id.
pub open spec fn has_service(s: Seq<CursorRow>, id: Seq<char>) -> bool {
    exists|i: int| 0 <= i < s.len() && (#[trigger] s[i]).id@ == id
}

/// The index of the row carrying the service id.
pub open spec fn service_index(s: Seq<CursorRow>, id: Seq<char>) -> int {
    choose|i: int| 0 <= i < s.len() && (#[trigger] s[i]).id@ == id
}

/// The rows carry pairwise distinct service ids.
pub open spec fn unique_services(s: Seq<CursorRow>) -> bool {
    forall|i: int, j: int| 0 <= i < j < s.len() ==> (#[trigger] s[i]).id@ != (#[trigger] s[j]).id@
}

impl CursorStore {
    /// The store's view: the row persisted for each service id.
    pub closed spec fn spec_cursor(&self, id: Seq<char>) -> Option<CursorRow> {
        if has_service(self.rows@, id) {
            Some(self.rows@[service_index(self.rows@, id)])
        } else {
            None
        }
    }

    /// The store's internal invariant: one row per service.
    pub closed spec fn wf(&self) -> bool {
        unique_services(self.rows@)
    }

    /// An empty store.
    pub fn new() -> (r: CursorStore)
        ensures
            r.wf(),
            forall|id: Seq<char>| r.spec_cursor(id) is None,
    {
        let r = CursorStore { rows: Vec::new() };
        proof {
            assert forall|id: Seq<char>| r.spec_cursor(id) is None by {
                if has_service(r.rows@, id) {
                    let k = service_index(r.rows@, id);
                }
            }
        }
        r
    }

    /// The cursor last persisted for a service, if any.
    pub fn load_cursor(&self, id: &String) -> (r: Option<&CursorRow>)
        requires
            self.wf(),
        ensures
            match r {
                Some(row) => self.spec_cursor(id@) == Some(*row),
                None => self.spec_cursor(id@) is None,
            },
    {
        let mut j: usize = 0;
        while j < self.rows.len()
            invariant
                j <= self.rows@.len(),
                unique_services(self.rows@),
                forall|k: int| 0 <= k < j ==> (#[trigger] self.rows@[k]).id@ != id@,
            decreases self.rows@.len() - j,
        {
            if self.rows[j].id == *id {
                proof {
                    lemma_service_index(self.rows@, id@, j as int);
                }
                return Some(&self.rows[j]);
            }
            j = j + 1;
        }
        proof {
            if has_service(self.rows@, id@) {
                let k = service_index(self.rows@, id@);
            }
        }
        None
    }

    /// Persist a cursor for a service. The write never moves a
    /// service's block number backwards, so the persisted numbers are
    /// non-decreasing across the life of the store — and across
    /// restarts, which resume from the persisted row.
    pub fn persist_cursor(&mut self, id: &String, cursor: &String, block_number: u64)
        requires
            old(self).wf(),
            match old(self).spec_cursor(id@) {
                Some(row) => row.block_number <= block_number,
                None => true,
            },
        ensures
            final(self).wf(),
            final(self).spec_cursor(id@) matches Some(row) && row.id@ == id@ && row.cursor@
                == cursor@ && row.block_number == block_number,
            forall|other: Seq<char>|
                other != id@ ==> final(self).spec_cursor(other) == old(self).spec_cursor(other),
    {
        let mut j: usize = 0;
        let n = self.rows.len();
        while j < n
            invariant
                j <= n,
                self.rows@ == old(self).rows@,
                n == self.rows@.len(),
                unique_services(self.rows@),
                forall|k: int| 0 <= k < j ==> (#[trigger] self.rows@[k]).id@ != id@,
            decreases n - j,
        {
            if self.rows[j].id == *id {
                let ghost before = self.rows@;
                let new_row = CursorRow {
                    id: id.clone(),
                    cursor: cursor.clone(),
                    block_number,
                };
                let _old_row = self.rows.remove(j);
                self.rows.insert(j, new_row);
                proof {
                    lemma_service_index(before, id@, j as int);
                    assert(unique_services(self.rows@)) by {
                        let t = self.rows@;
                        assert forall|a: int, b: int| 0 <= a < b < t.len() implies
                            (#[trigger] t[a]).id@ != (#[trigger] t[b]).id@ by {
                            assert(t[a].id@ == before[a].id@ || a == j);
                            assert(t[b].id@ == before[b].id@ || b == j);
                        }
                    }
                    lemma_service_index(self.rows@, id@, j as int);
                    assert forall|other: Seq<char>| other != id@ implies final(self).spec_cursor(
                        other,
                    ) == old(self).spec_cursor(other) by {
                        if has_service(before, other) {
                            let k = service_index(before, other);
                            lemma_service_index(before, other, k);
                            assert(self.rows@[k].id@ == other);
                            lemma_service_index(self.rows@, other, k);
                        } else {
                            if has_service(self.rows@, other) {
                                let k = service_index(self.rows@, other);
                                assert(before[k].id@ == other);
                            }
                        }
                    }
                }
                return;
            }
            j = j + 1;
        }
        let ghost before = self.rows@;
        self.rows.push(
            CursorRow { id: id.clone(), cursor: cursor.clone(), block_number },
        );
        proof {
            assert(!has_service(before, id@)) by {
                if has_service(before, id@) {
                    let k = service_index(before, id@);
                }
            }
            assert(unique_services(self.rows@)) by {
                let t = self.rows@;
                assert forall|a: int, b: int| 0 <= a < b < t.len() implies (#[trigger] t[a]).id@
                    != (#[trigger] t[b]).id@ by {
                    if b == t.len() - 1 {
                        assert(t[a] == before[a]);
                        if before[a].id@ == id@ {
                            assert(has_service(before, id@));
                        }
                    } else {
                        assert(t[a] == before[a] && t[b] == before[b]);
                    }
                }
            }
            lemma_service_index(self.rows@, id@, self.rows@.len() - 1);
            assert forall|other: Seq<char>| other != id@ implies final(self).spec_cursor(other)
                == old(self).spec_cursor(other) by {
                if has_service(before, other) {
                    let k = service_index(before, other);
                    lemma_service_index(before, other, k);
                    assert(self.rows@[k].id@ == other);
                    lemma_service_index(self.rows@, other, k);
                } else {
                    if has_service(self.rows@, other) {
                        let k = service_index(self.rows@, other);
                        assert(k < before.len());
                        assert(before[k].id@ == other);
                    }
                }
            }
        }
    }
}

proof fn lemma_service_index(s: Seq<CursorRow>, id: Seq<char>, j: int)
    requires
        unique_services(s),
        0 <= j < s.len(),
        s[j].id@ == id,
    ensures
        has_service(s, id),
        service_index(s, id) == j,
{
    assert(has_service(s, id));
    let i = service_index(s, id);
    if i < j {
        assert(s[i].id@ != s[j].id@);
    } else if j < i {
        assert(s[j].id@ != s[i].id@);
    }
}

} // verus!
